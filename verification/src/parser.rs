use vstd::prelude::*;
use crate::ast::{
    Attributes, Block, Document, Inline, ListItem, SpecInline, block_view, blocks_view,
    empty_attrs, inline_view, inlines_view, item_view, items_view, strings_view,
    lemma_inlines_view_push, lemma_inlines_view_len, lemma_items_view_push,
    lemma_blocks_view_push,
};
use crate::parser_spec::{
    InlineContext, ParseError, ParseState, alt_text, at_pos, attr_classes, attr_line_end,
    attr_piece, attr_raw, code_body, code_language, code_span, continues_paragraph, is_note_end,
    is_note_start, item_marker, kind_is, note_word, paragraph_lines, push_inline, run_length,
    skip_blank, skip_spaces, spec_attributes, spec_block, spec_blocks, spec_code_block,
    spec_header, spec_image, spec_link, spec_list_item, spec_list_items, spec_note,
    spec_note_body, spec_ordered_list, spec_paragraph, spec_parse, spec_run, spec_unordered_list,
    take_pending, text_of, url_text,
};
use crate::text::{
    chars_of, extend_chars, parse_usize, split_chars, split_on, string_from_chars, trim,
    trim_chars,
};
use crate::tokens::{SpecToken, Token, TokenTypes, tokens_view};

verus! {

/// Turns a token stream, read from a source text, into a [`Document`].
pub struct Parser {
    source: String,
    tokens: Vec<Token>,
    cursor: usize,
    pending_attrs: Attributes,
    global_ids: Vec<String>,
}

/// The state at the start of a parse of tokens read from `src`.
pub open spec fn initial_state(src: Seq<char>) -> ParseState {
    ParseState { src, pos: 0, pending: empty_attrs(), ids: Seq::empty() }
}

impl Parser {
    /// The tokens being parsed.
    pub closed spec fn toks(&self) -> Seq<SpecToken> {
        tokens_view(self.tokens@)
    }

    /// How far the parse has come.
    pub closed spec fn state(&self) -> ParseState {
        ParseState {
            src: self.source@,
            pos: self.cursor as int,
            pending: self.pending_attrs@,
            ids: strings_view(self.global_ids@),
        }
    }

    pub closed spec fn wf(&self) -> bool {
        self.cursor <= self.tokens@.len()
    }

    /// A parser of `tokens`, which were read from `source`; the spans of the
    /// tokens are byte offsets into it.
    pub fn new(tokens: Vec<Token>, source: &str) -> (p: Parser)
        ensures
            p.wf(),
            p.toks() == tokens_view(tokens@),
            p.state() == initial_state(source@),
    {
        let p = Parser {
            source: source.to_owned(),
            tokens,
            cursor: 0,
            pending_attrs: Attributes::empty(),
            global_ids: Vec::new(),
        };
        assert(strings_view(p.global_ids@) == Seq::<Seq<char>>::empty());
        p
    }

    fn is_eof(&self) -> (r: bool)
        requires
            self.wf(),
        ensures
            r == (self.cursor >= self.toks().len()),
    {
        self.cursor >= self.tokens.len()
    }

    /// Whether token `i` exists and is of kind `k`.
    fn kind_is(&self, i: usize, k: TokenTypes) -> (r: bool)
        ensures
            r == kind_is(self.toks(), i as int, k),
    {
        i < self.tokens.len() && self.tokens[i].token_type == k
    }

    fn token_text(&self, i: usize) -> (s: &str)
        requires
            i < self.toks().len(),
        ensures
            s@ == text_of(self.toks()[i as int]),
    {
        match &self.tokens[i].value {
            Some(v) => v.as_str(),
            None => {
                proof {
                    reveal_strlit("");
                }
                ""
            },
        }
    }

    fn take_pending_attrs(&mut self) -> (a: Attributes)
        ensures
            a@ == old(self).state().pending,
            final(self).state() == take_pending(old(self).state()).0,
            final(self).toks() == old(self).toks(),
            final(self).cursor == old(self).cursor,
            final(self).wf() == old(self).wf(),
    {
        let mut a = Attributes::empty();
        std::mem::swap(&mut a, &mut self.pending_attrs);
        a
    }

    fn is_note_end(&self, c: usize) -> (r: bool)
        ensures
            r == is_note_end(self.toks(), c as int),
    {
        if c < self.tokens.len() && self.tokens[c].token_type == TokenTypes::Colon && c
            < self.tokens.len() - 1 && self.tokens[c + 1].token_type == TokenTypes::Colon {
            if c + 2 >= self.tokens.len() {
                true
            } else {
                let k = self.tokens[c + 2].token_type;
                k == TokenTypes::NewLine || k == TokenTypes::WhiteSpace
            }
        } else {
            false
        }
    }

    fn is_note_start(&self, c: usize) -> (r: bool)
        ensures
            r == is_note_start(self.toks(), c as int),
    {
        if c < self.tokens.len() && self.tokens[c].token_type == TokenTypes::Colon && c
            < self.tokens.len() - 1 && self.tokens[c + 1].token_type == TokenTypes::Colon && c
            < self.tokens.len() - 2 {
            match &self.tokens[c + 2].value {
                Some(v) => {
                    let cs = chars_of(v.as_str());
                    let r = cs.len() == 4 && cs[0] == 'n' && cs[1] == 'o' && cs[2] == 't' && cs[3]
                        == 'e';
                    assert(r ==> cs@ == note_word());
                    r
                },
                None => false,
            }
        } else {
            false
        }
    }

    /// The position after the run of tokens of kind `k` at `pos`, and its length.
    fn run_end(&self, pos: usize, k: TokenTypes) -> (r: usize)
        requires
            pos <= self.toks().len(),
        ensures
            r == pos + run_length(self.toks(), pos as int, k),
            r <= self.toks().len(),
    {
        let mut i = pos;
        while i < self.tokens.len() && self.tokens[i].token_type == k
            invariant
                pos <= i <= self.toks().len(),
                run_length(self.toks(), pos as int, k) == (i - pos) + run_length(
                    self.toks(),
                    i as int,
                    k,
                ),
            decreases self.toks().len() - i,
        {
            i = i + 1;
        }
        i
    }

    fn skip_while_blank(&self, pos: usize) -> (r: usize)
        requires
            pos <= self.toks().len(),
        ensures
            r == skip_blank(self.toks(), pos as int),
            pos <= r <= self.toks().len(),
    {
        let mut i = pos;
        while i < self.tokens.len() && (self.tokens[i].token_type == TokenTypes::NewLine
            || self.tokens[i].token_type == TokenTypes::WhiteSpace)
            invariant
                pos <= i <= self.toks().len(),
                skip_blank(self.toks(), pos as int) == skip_blank(self.toks(), i as int),
            decreases self.toks().len() - i,
        {
            i = i + 1;
        }
        i
    }

    fn skip_while_space(&self, pos: usize) -> (r: usize)
        requires
            pos <= self.toks().len(),
        ensures
            r == skip_spaces(self.toks(), pos as int),
            pos <= r <= self.toks().len(),
    {
        let mut i = pos;
        while i < self.tokens.len() && self.tokens[i].token_type == TokenTypes::WhiteSpace
            invariant
                pos <= i <= self.toks().len(),
                skip_spaces(self.toks(), pos as int) == skip_spaces(self.toks(), i as int),
            decreases self.toks().len() - i,
        {
            i = i + 1;
        }
        i
    }

    // -----------------------------------------------------------------------
    // Attribute lines
    fn gather_attr_raw(&self, pos: usize) -> (r: Option<(usize, Vec<char>)>)
        requires
            pos <= self.toks().len(),
        ensures
            match attr_raw(self.toks(), pos as int, Seq::empty()) {
                None => r is None,
                Some((p, raw)) => r matches Some((q, v)) && q == p && v@ == raw && pos < q
                    <= self.toks().len(),
            },
    {
        let mut i = pos;
        let mut raw: Vec<char> = Vec::new();
        while i < self.tokens.len()
            invariant
                pos <= i <= self.toks().len(),
                attr_raw(self.toks(), pos as int, Seq::empty()) == attr_raw(
                    self.toks(),
                    i as int,
                    raw@,
                ),
            decreases self.toks().len() - i,
        {
            let k = self.tokens[i].token_type;
            if k == TokenTypes::ClassEnd {
                return Some((i + 1, raw));
            }
            let ghost before = raw@;
            if k == TokenTypes::UnderScore {
                raw.push('_');
            } else if k == TokenTypes::Emphasis {
                raw.push('*');
            } else if k == TokenTypes::Dash {
                raw.push('-');
            } else if k == TokenTypes::WhiteSpace {
                raw.push(' ');
            } else {
                extend_chars(&mut raw, self.token_text(i));
            }
            assert(raw@ == before + attr_piece(self.toks()[i as int]));
            i = i + 1;
        }
        None
    }

    fn attr_line_end(&self, pos: usize) -> (r: Option<usize>)
        requires
            pos <= self.toks().len(),
        ensures
            r is Some <==> attr_line_end(self.toks(), pos as int) is Some,
            r matches Some(q) ==> attr_line_end(self.toks(), pos as int) == Some(q as int) && pos
                <= q <= self.toks().len(),
    {
        let mut i = pos;
        while i < self.tokens.len()
            invariant
                pos <= i <= self.toks().len(),
                attr_line_end(self.toks(), pos as int) == attr_line_end(self.toks(), i as int),
            decreases self.toks().len() - i,
        {
            let k = self.tokens[i].token_type;
            if k == TokenTypes::NewLine {
                return Some(i + 1);
            } else if k != TokenTypes::WhiteSpace {
                return None;
            }
            i = i + 1;
        }
        Some(i)
    }

    fn id_declared(&self, id: &String) -> (r: bool)
        ensures
            r == strings_view(self.global_ids@).contains(id@),
    {
        let n = self.global_ids.len();
        for j in 0..n
            invariant
                n == self.global_ids@.len(),
                forall|m: int| 0 <= m < j ==> self.global_ids@[m]@ != id@,
        {
            if self.global_ids[j] == *id {
                assert(strings_view(self.global_ids@)[j as int] == id@);
                return true;
            }
        }
        proof {
            if strings_view(self.global_ids@).contains(id@) {
                let m = choose|m: int|
                    0 <= m < strings_view(self.global_ids@).len() && strings_view(
                        self.global_ids@,
                    )[m] == id@;
                assert(self.global_ids@[m]@ == id@);
            }
        }
        false
    }

    /// An attribute line at the cursor, which is a `{`.
    fn parse_attributes(&mut self) -> (r: Result<(), ParseError>)
        requires
            old(self).wf(),
            old(self).cursor < old(self).toks().len(),
        ensures
            final(self).wf(),
            final(self).toks() == old(self).toks(),
            match spec_attributes(old(self).toks(), old(self).state()) {
                Ok((st, _u)) => r is Ok && final(self).state() == st,
                Err(e) => r == Err::<(), ParseError>(e),
            },
            r is Ok ==> final(self).cursor > old(self).cursor,
    {
        let ghost t = self.toks();
        assert(t.len() == self.tokens@.len());
        let _n = self.tokens.len();
        let (p, raw) = match self.gather_attr_raw(self.cursor + 1) {
            None => {
                return Err(ParseError::UnterminatedAttributes);
            },
            Some(x) => x,
        };
        let q = match self.attr_line_end(p) {
            None => {
                return Err(ParseError::AttributesNotOnOwnLine);
            },
            Some(q) => q,
        };
        let parts = split_chars(raw.as_slice(), ',');
        proof {
            crate::text::lemma_split_on_nonempty(raw@, ',');
        }
        let ghost sparts = split_on(raw@, ',');
        let first = trim_chars(parts[0].as_slice());
        let mut classes: Vec<String> = Vec::new();
        let np = parts.len();
        for j in 1..np
            invariant
                np == parts@.len(),
                np == sparts.len(),
                np >= 1,
                forall|m: int| 0 <= m < np ==> #[trigger] parts@[m]@ == sparts[m],
                strings_view(classes@) == attr_classes(sparts.drop_first().take(j - 1)),
        {
            let c = trim_chars(parts[j].as_slice());
            let ghost before = classes@;
            assert(sparts.drop_first().take(j as int).drop_last() == sparts.drop_first().take(
                j - 1,
            ));
            assert(sparts.drop_first().take(j as int).last() == sparts[j as int]);
            if c.len() > 0 {
                classes.push(string_from_chars(c.as_slice()));
                assert(strings_view(classes@) == strings_view(before).push(c@));
            }
        }
        assert(sparts.drop_first().take(np - 1) == sparts.drop_first());
        let id = if (first.len() == 1 && first[0] == '_') || first.len() == 0 {
            assert(first@ == seq!['_'] || first@.len() == 0);
            None
        } else {
            assert(first@ != seq!['_']);
            let id_str = string_from_chars(first.as_slice());
            if self.id_declared(&id_str) {
                return Err(ParseError::DuplicateId);
            }
            let ghost before = self.global_ids@;
            self.global_ids.push(id_str.clone());
            assert(strings_view(self.global_ids@) == strings_view(before).push(first@));
            Some(id_str)
        };
        self.pending_attrs = Attributes { id, classes };
        self.cursor = q;
        proof {
            let first_s = trim(sparts[0]);
            assert(first@ == first_s);
            assert(strings_view(classes@) == attr_classes(sparts.drop_first()));
            assert(attr_raw(t, old(self).cursor + 1, Seq::empty()) == Some((p as int, raw@)));
            assert(attr_line_end(t, p as int) == Some(q as int));
            let sp = spec_attributes(t, old(self).state());
            assert(sp is Ok);
            assert(self.state().pos == sp->Ok_0.0.pos);
            assert(self.state().pending == sp->Ok_0.0.pending);
            assert(self.state().ids == sp->Ok_0.0.ids);
        }
        Ok(())
    }

    // -----------------------------------------------------------------------
    // Code blocks and the plain-text parts of inline constructs
    fn gather_code_language(&self, pos: usize) -> (r: (usize, Vec<char>))
        requires
            pos <= self.toks().len(),
        ensures
            code_language(self.toks(), pos as int, Seq::empty()) == (r.0 as int, r.1@),
            pos <= r.0 <= self.toks().len(),
    {
        let mut i = pos;
        let mut acc: Vec<char> = Vec::new();
        while i < self.tokens.len()
            invariant
                pos <= i <= self.toks().len(),
                code_language(self.toks(), pos as int, Seq::empty()) == code_language(
                    self.toks(),
                    i as int,
                    acc@,
                ),
            decreases self.toks().len() - i,
        {
            if self.tokens[i].token_type == TokenTypes::NewLine {
                return (i + 1, acc);
            }
            extend_chars(&mut acc, self.token_text(i));
            i = i + 1;
        }
        (i, acc)
    }

    fn gather_code_body(&self, pos: usize) -> (r: Option<(usize, Vec<char>)>)
        requires
            pos <= self.toks().len(),
        ensures
            r is Some <==> code_body(self.toks(), pos as int, Seq::empty()) is Some,
            r matches Some((q, v)) ==> code_body(self.toks(), pos as int, Seq::empty()) == Some(
                (q as int, v@),
            ) && pos < q <= self.toks().len(),
    {
        let mut i = pos;
        let mut acc: Vec<char> = Vec::new();
        while i < self.tokens.len()
            invariant
                pos <= i <= self.toks().len(),
                code_body(self.toks(), pos as int, Seq::empty()) == code_body(
                    self.toks(),
                    i as int,
                    acc@,
                ),
            decreases self.toks().len() - i,
        {
            let k = self.tokens[i].token_type;
            if k == TokenTypes::BackTick && self.kind_is(i + 1, TokenTypes::BackTick) {
                return Some((i + 2, acc));
            } else if k == TokenTypes::NewLine {
                acc.push('\n');
            } else if k == TokenTypes::WhiteSpace {
                acc.push(' ');
            } else {
                extend_chars(&mut acc, self.token_text(i));
            }
            i = i + 1;
        }
        None
    }

    /// A code block at the cursor, which is a backtick followed by another.
    fn parse_code_block(&mut self) -> (r: Result<Block, ParseError>)
        requires
            old(self).wf(),
            old(self).cursor < old(self).toks().len(),
        ensures
            final(self).wf(),
            final(self).toks() == old(self).toks(),
            match spec_code_block(old(self).toks(), old(self).state()) {
                Ok((st, b)) => r matches Ok(x) && block_view(x) == b && final(self).state() == st,
                Err(e) => r matches Err(e2) && e2 == e,
            },
            r is Ok ==> final(self).cursor > old(self).cursor,
    {
        let e = self.run_end(self.cursor, TokenTypes::BackTick);
        if e - self.cursor != 2 {
            return Err(ParseError::CodeBlockFence);
        }
        let (p, lang) = self.gather_code_language(e);
        let tl = trim_chars(lang.as_slice());
        let language = if tl.len() == 0 {
            None
        } else {
            Some(string_from_chars(tl.as_slice()))
        };
        match self.gather_code_body(p) {
            None => Err(ParseError::UnterminatedCodeBlock),
            Some((q, rebuilt)) => {
                let lo = self.tokens[p - 1].span.hi;
                let hi = if q - 2 > p {
                    self.tokens[q - 3].span.hi
                } else {
                    lo
                };
                let code = match crate::source_map::text_between(self.source.as_str(), lo, hi) {
                    Some(x) => string_from_chars(chars_of(x).as_slice()),
                    None => string_from_chars(rebuilt.as_slice()),
                };
                self.cursor = q;
                let _dropped = self.take_pending_attrs();
                Ok(Block::CodeBlock { language, code })
            },
        }
    }

    /// Inline code after its opening backtick, which is just before the cursor.
    fn parse_inline_code(&mut self) -> (r: Result<Inline, ParseError>)
        requires
            old(self).wf(),
        ensures
            final(self).wf(),
            final(self).toks() == old(self).toks(),
            match code_span(old(self).toks(), old(self).cursor as int, Seq::empty()) {
                None => r matches Err(e) && e == ParseError::UnterminatedInlineCode,
                Some((q, code)) => r matches Ok(x) && inline_view(x) == (SpecInline::InlineCode {
                    code,
                }) && final(self).state() == at_pos(old(self).state(), q),
            },
            r is Ok ==> final(self).cursor > old(self).cursor,
    {
        let pos = self.cursor;
        let mut i = pos;
        let mut acc: Vec<char> = Vec::new();
        while i < self.tokens.len()
            invariant
                pos <= i <= self.toks().len(),
                pos == old(self).cursor,
                self == old(self),
                code_span(self.toks(), pos as int, Seq::empty()) == code_span(
                    self.toks(),
                    i as int,
                    acc@,
                ),
            decreases self.toks().len() - i,
        {
            let k = self.tokens[i].token_type;
            if k == TokenTypes::BackTick {
                self.cursor = i + 1;
                return Ok(Inline::InlineCode { code: string_from_chars(acc.as_slice()) });
            } else if k == TokenTypes::NewLine {
                return Err(ParseError::UnterminatedInlineCode);
            } else if k == TokenTypes::WhiteSpace {
                acc.push(' ');
            } else {
                extend_chars(&mut acc, self.token_text(i));
            }
            i = i + 1;
        }
        Err(ParseError::UnterminatedInlineCode)
    }

    fn gather_url(&self, pos: usize) -> (r: Option<(usize, Vec<char>)>)
        requires
            pos <= self.toks().len(),
        ensures
            r is Some <==> url_text(self.toks(), pos as int, Seq::empty()) is Some,
            r matches Some((q, v)) ==> url_text(self.toks(), pos as int, Seq::empty()) == Some(
                (q as int, v@),
            ) && pos < q <= self.toks().len(),
    {
        let mut i = pos;
        let mut acc: Vec<char> = Vec::new();
        while i < self.tokens.len()
            invariant
                pos <= i <= self.toks().len(),
                url_text(self.toks(), pos as int, Seq::empty()) == url_text(
                    self.toks(),
                    i as int,
                    acc@,
                ),
            decreases self.toks().len() - i,
        {
            if self.tokens[i].token_type == TokenTypes::AnchorURLEnd {
                return Some((i + 1, acc));
            }
            extend_chars(&mut acc, self.token_text(i));
            i = i + 1;
        }
        None
    }

    fn gather_alt(&self, pos: usize) -> (r: Result<(usize, Vec<char>), ParseError>)
        requires
            pos <= self.toks().len(),
        ensures
            match alt_text(self.toks(), pos as int, Seq::empty()) {
                Ok((p, a)) => r matches Ok((q, v)) && q == p && v@ == a && pos < q
                    <= self.toks().len(),
                Err(e) => r matches Err(e2) && e2 == e,
            },
    {
        let mut i = pos;
        let mut acc: Vec<char> = Vec::new();
        while i < self.tokens.len()
            invariant
                pos <= i <= self.toks().len(),
                alt_text(self.toks(), pos as int, Seq::empty()) == alt_text(
                    self.toks(),
                    i as int,
                    acc@,
                ),
            decreases self.toks().len() - i,
        {
            let k = self.tokens[i].token_type;
            if k == TokenTypes::AnchorValueStart {
                return Err(ParseError::NestedImageBracket);
            }
            if k == TokenTypes::Image && self.kind_is(i + 1, TokenTypes::AnchorValueStart) {
                return Err(ParseError::NestedImage);
            }
            if k == TokenTypes::AnchorValueEnd {
                return Ok((i + 1, acc));
            }
            extend_chars(&mut acc, self.token_text(i));
            i = i + 1;
        }
        Err(ParseError::UnterminatedImageAlt)
    }

    /// An image at the cursor, which is a `!` followed by a `[`.
    fn parse_image(&mut self) -> (r: Result<Inline, ParseError>)
        requires
            old(self).wf(),
            old(self).cursor + 1 < old(self).toks().len(),
        ensures
            final(self).wf(),
            final(self).toks() == old(self).toks(),
            match spec_image(old(self).toks(), old(self).state()) {
                Ok((st, x)) => r matches Ok(y) && inline_view(y) == x && final(self).state() == st,
                Err(e) => r matches Err(e2) && e2 == e,
            },
            r is Ok ==> final(self).cursor > old(self).cursor,
    {
        let _n = self.tokens.len();
        let (p, alt) = match self.gather_alt(self.cursor + 2) {
            Err(e) => {
                return Err(e);
            },
            Ok(x) => x,
        };
        if !self.kind_is(p, TokenTypes::AnchorURLStart) {
            return Err(ParseError::ImageMissingSource);
        }
        let (q, src) = match self.gather_url(p + 1) {
            None => {
                return Err(ParseError::UnterminatedImageSource);
            },
            Some(x) => x,
        };
        self.cursor = q;
        let attrs = self.take_pending_attrs();
        Ok(Inline::Image {
            alt: string_from_chars(alt.as_slice()),
            src: string_from_chars(src.as_slice()),
            attrs,
        })
    }

    // -----------------------------------------------------------------------
    // Inline content
    /// A link at the cursor, which is a `[` or a `(`.
    fn parse_link(&mut self) -> (r: Result<Inline, ParseError>)
        requires
            old(self).wf(),
            old(self).cursor < old(self).toks().len(),
        ensures
            final(self).wf(),
            final(self).toks() == old(self).toks(),
            match spec_link(old(self).toks(), old(self).state()) {
                Ok((st, x)) => r matches Ok(y) && inline_view(y) == x && final(self).state() == st,
                Err(e) => r matches Err(e2) && e2 == e,
            },
            r is Ok ==> final(self).cursor > old(self).cursor,
        decreases old(self).toks().len() - old(self).cursor, 4int,
    {
        let _n = self.tokens.len();
        self.cursor = self.cursor + 1;
        let attrs = self.take_pending_attrs();
        let children = match self.parse_inline(InlineContext::Link, Vec::new()) {
            Err(e) => {
                return Err(e);
            },
            Ok(c) => c,
        };
        if !self.kind_is(self.cursor, TokenTypes::AnchorValueEnd) {
            return Err(ParseError::LinkMissingBracket);
        }
        if !self.kind_is(self.cursor + 1, TokenTypes::AnchorURLStart) {
            return Err(ParseError::LinkMissingUrl);
        }
        match self.gather_url(self.cursor + 2) {
            None => Err(ParseError::UnterminatedLinkUrl),
            Some((q, url)) => {
                self.cursor = q;
                Ok(Inline::Link { url: string_from_chars(url.as_slice()), children, attrs })
            },
        }
    }

    /// A run of inline content in context `ctx`, from the cursor on.
    fn parse_inline(&mut self, ctx: InlineContext, start: Vec<Inline>) -> (r: Result<
        Vec<Inline>,
        ParseError,
    >)
        requires
            old(self).wf(),
        ensures
            final(self).wf(),
            final(self).toks() == old(self).toks(),
            match spec_run(old(self).toks(), old(self).state(), ctx, inlines_view(start@)) {
                Ok((st, v)) => r matches Ok(y) && inlines_view(y@) == v && final(self).state()
                    == st,
                Err(e) => r matches Err(e2) && e2 == e,
            },
            r is Ok ==> final(self).cursor >= old(self).cursor,
            r is Ok && final(self).cursor == old(self).cursor ==> old(self).cursor
                == old(self).toks().len() || (ctx == InlineContext::Link && kind_is(
                old(self).toks(),
                old(self).cursor as int,
                TokenTypes::AnchorValueEnd,
            )),
            r is Ok && (ctx == InlineContext::Bold || ctx == InlineContext::Italic)
                ==> final(self).cursor > old(self).cursor,
        decreases old(self).toks().len() - old(self).cursor, 5int,
    {
        let ghost t = self.toks();
        let ghost st0 = self.state();
        let n = self.tokens.len();
        let emphasis = ctx == InlineContext::Bold || ctx == InlineContext::Italic;
        let unclosed = if ctx == InlineContext::Bold {
            ParseError::UnclosedBold
        } else {
            ParseError::UnclosedItalic
        };
        let ghost start_view = inlines_view(start@);
        let mut acc: Vec<Inline> = start;
        loop
            invariant
                self.wf(),
                self.toks() == t,
                t == old(self).toks(),
                st0 == old(self).state(),
                n == t.len(),
                self.cursor >= old(self).cursor,
                emphasis == (ctx == InlineContext::Bold || ctx == InlineContext::Italic),
                unclosed == (if ctx == InlineContext::Bold {
                    ParseError::UnclosedBold
                } else {
                    ParseError::UnclosedItalic
                }),
                start_view == inlines_view(start@),
                spec_run(t, st0, ctx, start_view) == spec_run(
                    t,
                    self.state(),
                    ctx,
                    inlines_view(acc@),
                ),
            decreases n - self.cursor,
        {
            let p = self.cursor;
            if p >= n {
                if emphasis {
                    return Err(unclosed);
                }
                return Ok(acc);
            }
            let k = self.tokens[p].token_type;
            if k == TokenTypes::NewLine {
                if emphasis {
                    return Err(unclosed);
                }
                self.cursor = p + 1;
                return Ok(acc);
            } else if k == TokenTypes::AnchorValueEnd && ctx == InlineContext::Link {
                return Ok(acc);
            } else if k == TokenTypes::AnchorURLStart || k == TokenTypes::AnchorValueStart {
                let link = match self.parse_link() {
                    Err(e) => {
                        return Err(e);
                    },
                    Ok(x) => x,
                };
                add_inline(&mut acc, link);
            } else if k == TokenTypes::WhiteSpace {
                self.cursor = p + 1;
                let mut sp = String::new();
                crate::text::push_char(&mut sp, ' ');
                add_inline(&mut acc, Inline::Text { value: sp });
            } else if k == TokenTypes::Emphasis && ctx == InlineContext::Bold {
                self.cursor = p + 1;
                return Ok(acc);
            } else if k == TokenTypes::UnderScore && ctx == InlineContext::Italic {
                self.cursor = p + 1;
                return Ok(acc);
            } else if k == TokenTypes::Emphasis || k == TokenTypes::UnderScore {
                self.cursor = p + 1;
                let inner = if k == TokenTypes::Emphasis {
                    InlineContext::Bold
                } else {
                    InlineContext::Italic
                };
                let kids = match self.parse_inline(inner, Vec::new()) {
                    Err(e) => {
                        return Err(e);
                    },
                    Ok(x) => x,
                };
                let x = if k == TokenTypes::Emphasis {
                    Inline::Bold { children: kids }
                } else {
                    Inline::Italic { children: kids }
                };
                add_inline(&mut acc, x);
            } else if k == TokenTypes::BackTick {
                self.cursor = p + 1;
                let code = match self.parse_inline_code() {
                    Err(e) => {
                        return Err(e);
                    },
                    Ok(x) => x,
                };
                add_inline(&mut acc, code);
            } else if k == TokenTypes::Image && self.kind_is(p + 1, TokenTypes::AnchorValueStart) {
                let img = match self.parse_image() {
                    Err(e) => {
                        return Err(e);
                    },
                    Ok(x) => x,
                };
                add_inline(&mut acc, img);
            } else {
                let text = string_from_chars(chars_of(self.token_text(p)).as_slice());
                self.cursor = p + 1;
                add_inline(&mut acc, Inline::Text { value: text });
            }
        }
    }

    // -----------------------------------------------------------------------
    // Blocks
    /// A paragraph at the cursor.
    fn parse_paragraph(&mut self) -> (r: Result<Block, ParseError>)
        requires
            old(self).wf(),
            old(self).cursor < old(self).toks().len(),
        ensures
            final(self).wf(),
            final(self).toks() == old(self).toks(),
            match spec_paragraph(old(self).toks(), old(self).state()) {
                Ok((st, b)) => r matches Ok(x) && block_view(x) == b && final(self).state() == st,
                Err(e) => r matches Err(e2) && e2 == e,
            },
            r is Ok ==> final(self).cursor > old(self).cursor,
        decreases old(self).toks().len() - old(self).cursor, 8int,
    {
        let attrs = self.take_pending_attrs();
        let ghost t = self.toks();
        let ghost st1 = self.state();
        let n = self.tokens.len();
        let mut acc: Vec<Inline> = Vec::new();
        loop
            invariant
                self.wf(),
                self.toks() == t,
                t == old(self).toks(),
                n == t.len(),
                st1 == take_pending(old(self).state()).0,
                attrs@ == old(self).state().pending,
                self.cursor >= old(self).cursor,
                paragraph_lines(t, st1, Seq::empty()) == paragraph_lines(
                    t,
                    self.state(),
                    inlines_view(acc@),
                ),
                old(self).cursor < n,
                self.cursor > old(self).cursor || acc@.len() == 0,
            decreases n - self.cursor,
        {
            let start = self.cursor;
            let ghost st = self.state();
            acc = match self.parse_inline(InlineContext::Block, acc) {
                Err(e) => {
                    return Err(e);
                },
                Ok(x) => x,
            };
            if self.cursor > start && self.continues_paragraph() {
                self.cursor = self.skip_while_space(self.cursor);
                let mut sp = String::new();
                crate::text::push_char(&mut sp, ' ');
                add_inline(&mut acc, Inline::Text { value: sp });
            } else {
                return Ok(Block::Paragraph { attrs, children: acc });
            }
        }
    }

    /// Whether the line at the cursor carries on the paragraph above it.
    fn continues_paragraph(&self) -> (r: bool)
        requires
            self.wf(),
        ensures
            r == continues_paragraph(self.toks(), self.cursor as int),
    {
        let n = self.tokens.len();
        let p = self.skip_while_space(self.cursor);
        if p >= n {
            return false;
        }
        let k = self.tokens[p].token_type;
        let starts = k == TokenTypes::ClassBegin || k == TokenTypes::Header || (k
            == TokenTypes::BackTick && self.kind_is(p + 1, TokenTypes::BackTick)) || k
            == TokenTypes::OrderedList || k == TokenTypes::Dash || self.is_note_start(p)
            || self.is_note_end(p);
        k != TokenTypes::NewLine && !starts
    }

    /// A header at the cursor, which is a `#`.
    fn parse_header(&mut self) -> (r: Result<Block, ParseError>)
        requires
            old(self).wf(),
            kind_is(old(self).toks(), old(self).cursor as int, TokenTypes::Header),
        ensures
            final(self).wf(),
            final(self).toks() == old(self).toks(),
            match spec_header(old(self).toks(), old(self).state()) {
                Ok((st, b)) => r matches Ok(x) && block_view(x) == b && final(self).state() == st,
                Err(e) => r matches Err(e2) && e2 == e,
            },
            r is Ok ==> final(self).cursor > old(self).cursor,
        decreases old(self).toks().len() - old(self).cursor, 8int,
    {
        let _n = self.tokens.len();
        let e = self.run_end(self.cursor, TokenTypes::Header);
        let level = e - self.cursor;
        if level > 255 {
            return Err(ParseError::HeaderTooDeep);
        }
        let p2 = if self.kind_is(e, TokenTypes::WhiteSpace) {
            e + 1
        } else {
            e
        };
        self.cursor = p2;
        let attrs = self.take_pending_attrs();
        match self.parse_inline(InlineContext::Block, Vec::new()) {
            Err(e) => Err(e),
            Ok(children) => Ok(Block::Header { attrs, level: level as u8, children }),
        }
    }

    /// A list item at the cursor, which is its marker.
    fn parse_list_item(&mut self, ordered: bool) -> (r: Result<ListItem, ParseError>)
        requires
            old(self).wf(),
            old(self).cursor < old(self).toks().len(),
        ensures
            final(self).wf(),
            final(self).toks() == old(self).toks(),
            match spec_list_item(old(self).toks(), old(self).state(), ordered) {
                Ok((st, it)) => r matches Ok(x) && item_view(x) == it && final(self).state() == st,
                Err(e) => r matches Err(e2) && e2 == e,
            },
            r is Ok ==> final(self).cursor > old(self).cursor,
        decreases old(self).toks().len() - old(self).cursor, 6int,
    {
        let _n = self.tokens.len();
        let p = self.cursor + 1;
        let mut p1 = p;
        if ordered && p < self.tokens.len() {
            match &self.tokens[p].value {
                Some(v) => {
                    let cs = chars_of(v.as_str());
                    if cs.len() == 1 && cs[0] == '.' {
                        assert(cs@ == seq!['.']);
                        p1 = p + 1;
                    } else {
                        assert(cs@ != seq!['.']);
                    }
                },
                None => {},
            }
        }
        let p2 = if self.kind_is(p1, TokenTypes::WhiteSpace) {
            p1 + 1
        } else {
            p1
        };
        self.cursor = p2;
        let attrs = self.take_pending_attrs();
        match self.parse_inline(InlineContext::Block, Vec::new()) {
            Err(e) => Err(e),
            Ok(children) => Ok(ListItem { attrs, children }),
        }
    }

    /// The items of a list from the cursor on.
    fn parse_list_items(&mut self, ordered: bool) -> (r: Result<Vec<ListItem>, ParseError>)
        requires
            old(self).wf(),
        ensures
            final(self).wf(),
            final(self).toks() == old(self).toks(),
            match spec_list_items(old(self).toks(), old(self).state(), ordered, Seq::empty()) {
                Ok((st, v)) => r matches Ok(x) && items_view(x@) == v && final(self).state() == st,
                Err(e) => r matches Err(e2) && e2 == e,
            },
            r is Ok ==> final(self).cursor >= old(self).cursor,
            r is Ok && kind_is(old(self).toks(), old(self).cursor as int, item_marker(ordered))
                ==> final(self).cursor > old(self).cursor,
        decreases old(self).toks().len() - old(self).cursor, 7int,
    {
        let ghost t = self.toks();
        let ghost st0 = self.state();
        let n = self.tokens.len();
        let marker = if ordered {
            TokenTypes::OrderedList
        } else {
            TokenTypes::Dash
        };
        let mut items: Vec<ListItem> = Vec::new();
        loop
            invariant
                self.wf(),
                self.toks() == t,
                t == old(self).toks(),
                st0 == old(self).state(),
                n == t.len(),
                marker == item_marker(ordered),
                self.cursor >= old(self).cursor,
                spec_list_items(t, st0, ordered, Seq::empty()) == spec_list_items(
                    t,
                    self.state(),
                    ordered,
                    items_view(items@),
                ),
            decreases n - self.cursor,
        {
            let p = self.skip_while_space(self.cursor);
            self.cursor = p;
            if !self.kind_is(p, marker) {
                return Ok(items);
            }
            let item = match self.parse_list_item(ordered) {
                Err(e) => {
                    return Err(e);
                },
                Ok(x) => x,
            };
            proof {
                lemma_items_view_push(items@, item);
            }
            items.push(item);
        }
    }

    /// An ordered list at the cursor, which is its first marker.
    fn parse_ordered_list(&mut self) -> (r: Result<Block, ParseError>)
        requires
            old(self).wf(),
            old(self).cursor < old(self).toks().len(),
        ensures
            final(self).wf(),
            final(self).toks() == old(self).toks(),
            match spec_ordered_list(old(self).toks(), old(self).state()) {
                Ok((st, b)) => r matches Ok(x) && block_view(x) == b && final(self).state() == st,
                Err(e) => r matches Err(e2) && e2 == e,
            },
            kind_is(old(self).toks(), old(self).cursor as int, TokenTypes::OrderedList) && r is Ok
                ==> final(self).cursor > old(self).cursor,
        decreases old(self).toks().len() - old(self).cursor, 8int,
    {
        let start: usize = match &self.tokens[self.cursor].value {
            Some(v) => match parse_usize(chars_of(v.as_str()).as_slice()) {
                Some(n) => n,
                None => 1,
            },
            None => 1,
        };
        let attrs = self.take_pending_attrs();
        match self.parse_list_items(true) {
            Err(e) => Err(e),
            Ok(children) => Ok(Block::OrderedList { attrs, start, children }),
        }
    }

    /// An unordered list at the cursor, which is its first `-`.
    fn parse_unordered_list(&mut self) -> (r: Result<Block, ParseError>)
        requires
            old(self).wf(),
            old(self).cursor < old(self).toks().len(),
        ensures
            final(self).wf(),
            final(self).toks() == old(self).toks(),
            match spec_unordered_list(old(self).toks(), old(self).state()) {
                Ok((st, b)) => r matches Ok(x) && block_view(x) == b && final(self).state() == st,
                Err(e) => r matches Err(e2) && e2 == e,
            },
            kind_is(old(self).toks(), old(self).cursor as int, TokenTypes::Dash) && r is Ok
                ==> final(self).cursor > old(self).cursor,
        decreases old(self).toks().len() - old(self).cursor, 8int,
    {
        let attrs = self.take_pending_attrs();
        match self.parse_list_items(false) {
            Err(e) => Err(e),
            Ok(children) => Ok(Block::UnorderedList { attrs, children }),
        }
    }

    /// The blocks of a note from the cursor on, up to its closing `::`.
    fn parse_note_body(&mut self) -> (r: Result<Vec<Block>, ParseError>)
        requires
            old(self).wf(),
        ensures
            final(self).wf(),
            final(self).toks() == old(self).toks(),
            match spec_note_body(old(self).toks(), old(self).state(), Seq::empty()) {
                Ok((st, v)) => r matches Ok(x) && blocks_view(x@) == v && final(self).state()
                    == st,
                Err(e) => r matches Err(e2) && e2 == e,
            },
            r is Ok ==> final(self).cursor > old(self).cursor,
        decreases old(self).toks().len() - old(self).cursor, 10int,
    {
        let ghost t = self.toks();
        let ghost st0 = self.state();
        let n = self.tokens.len();
        let mut blocks: Vec<Block> = Vec::new();
        loop
            invariant
                self.wf(),
                self.toks() == t,
                t == old(self).toks(),
                st0 == old(self).state(),
                n == t.len(),
                self.cursor >= old(self).cursor,
                spec_note_body(t, st0, Seq::empty()) == spec_note_body(
                    t,
                    self.state(),
                    blocks_view(blocks@),
                ),
            decreases n - self.cursor,
        {
            let p = self.skip_while_blank(self.cursor);
            if p == n {
                return Err(ParseError::UnterminatedNote);
            }
            self.cursor = p;
            if self.is_note_end(self.cursor) {
                self.cursor = p + 2;
                return Ok(blocks);
            }
            match self.parse_block() {
                Err(e) => {
                    return Err(e);
                },
                Ok(Some(b)) => {
                    proof {
                        lemma_blocks_view_push(blocks@, b);
                    }
                    blocks.push(b);
                },
                Ok(None) => {},
            }
        }
    }

    /// A note block at the cursor, which is its `::note`.
    fn parse_note(&mut self) -> (r: Result<Block, ParseError>)
        requires
            old(self).wf(),
        ensures
            final(self).wf(),
            final(self).toks() == old(self).toks(),
            match spec_note(old(self).toks(), old(self).state()) {
                Ok((st, b)) => r matches Ok(x) && block_view(x) == b && final(self).state() == st,
                Err(e) => r matches Err(e2) && e2 == e,
            },
            r is Ok ==> final(self).cursor > old(self).cursor,
        decreases old(self).toks().len() - old(self).cursor, 8int,
    {
        let n = self.tokens.len();
        if n < 3 || self.cursor > n - 3 {
            return Err(ParseError::UnterminatedNote);
        }
        self.cursor = self.cursor + 3;
        let _dropped = self.take_pending_attrs();
        match self.parse_note_body() {
            Err(e) => Err(e),
            Ok(children) => Ok(Block::Note { children }),
        }
    }

    /// The next block from the cursor on; `None` at the end of the tokens.
    fn parse_block(&mut self) -> (r: Result<Option<Block>, ParseError>)
        requires
            old(self).wf(),
        ensures
            final(self).wf(),
            final(self).toks() == old(self).toks(),
            match spec_block(old(self).toks(), old(self).state()) {
                Ok((st, b)) => r matches Ok(x) && (match x {
                    Some(y) => b == Some(block_view(y)),
                    None => b is None,
                }) && final(self).state() == st,
                Err(e) => r matches Err(e2) && e2 == e,
            },
            r is Ok ==> final(self).cursor > old(self).cursor || old(self).cursor
                == old(self).toks().len(),
        decreases old(self).toks().len() - old(self).cursor, 9int,
    {
        let n = self.tokens.len();
        let p = self.skip_while_blank(self.cursor);
        self.cursor = p;
        if p == n {
            return Ok(None);
        }
        let k = self.tokens[p].token_type;
        if k == TokenTypes::ClassBegin {
            match self.parse_attributes() {
                Err(e) => {
                    return Err(e);
                },
                Ok(()) => {},
            }
            return self.parse_block();
        }
        let r = if k == TokenTypes::Header {
            self.parse_header()
        } else if k == TokenTypes::BackTick && self.kind_is(p + 1, TokenTypes::BackTick) {
            self.parse_code_block()
        } else if k == TokenTypes::OrderedList {
            self.parse_ordered_list()
        } else if k == TokenTypes::Dash {
            self.parse_unordered_list()
        } else if k == TokenTypes::Colon && self.is_note_start(self.cursor) {
            self.parse_note()
        } else if k == TokenTypes::Colon && self.is_note_end(self.cursor) {
            Err(ParseError::StrayNoteEnd)
        } else {
            self.parse_paragraph()
        };
        match r {
            Err(e) => Err(e),
            Ok(b) => Ok(Some(b)),
        }
    }

    /// Parses the tokens from the cursor to the end into a document.
    pub fn parse(&mut self) -> (r: Result<Document, ParseError>)
        requires
            old(self).wf(),
        ensures
            final(self).wf(),
            final(self).toks() == old(self).toks(),
            match spec_parse(old(self).toks(), old(self).state()) {
                Ok((st, d)) => r matches Ok(x) && x@ == d && final(self).state() == st,
                Err(e) => r matches Err(e2) && e2 == e,
            },
    {
        let ghost t = self.toks();
        let ghost st0 = self.state();
        let n = self.tokens.len();
        let mut blocks: Vec<Block> = Vec::new();
        while self.cursor < n
            invariant
                self.wf(),
                self.toks() == t,
                t == old(self).toks(),
                st0 == old(self).state(),
                n == t.len(),
                spec_blocks(t, st0, Seq::empty()) == spec_blocks(
                    t,
                    self.state(),
                    blocks_view(blocks@),
                ),
            decreases n - self.cursor,
        {
            match self.parse_block() {
                Err(e) => {
                    return Err(e);
                },
                Ok(Some(b)) => {
                    proof {
                        lemma_blocks_view_push(blocks@, b);
                    }
                    blocks.push(b);
                },
                Ok(None) => {},
            }
        }
        Ok(Document { children: blocks })
    }
}

/// Adds an inline to a list of inlines, joining text that follows text.
fn add_inline(children: &mut Vec<Inline>, inline: Inline)
    ensures
        inlines_view(final(children)@) == push_inline(
            inlines_view(old(children)@),
            inline_view(inline),
        ),
{
    let ghost old_view = inlines_view(children@);
    let ghost x = inline_view(inline);
    match inline {
        Inline::Text { value } => {
            if children.len() > 0 {
                let last = children.pop().unwrap();
                proof {
                    lemma_inlines_view_push(children@, last);
                    lemma_inlines_view_len(children@);
                }
                match last {
                    Inline::Text { value: existing } => {
                        let mut joined = existing;
                        joined.append(value.as_str());
                        let ghost base = children@;
                        children.push(Inline::Text { value: joined });
                        proof {
                            lemma_inlines_view_push(base, Inline::Text { value: joined });
                            assert(inlines_view(children@) =~= old_view.update(
                                old_view.len() - 1,
                                SpecInline::Text { value: old_view.last()->Text_value + value@ },
                            ));
                        }
                    },
                    other => {
                        let ghost base = children@;
                        children.push(other);
                        proof {
                            lemma_inlines_view_push(base, other);
                        }
                        let ghost base2 = children@;
                        children.push(Inline::Text { value });
                        proof {
                            lemma_inlines_view_push(base2, Inline::Text { value });
                        }
                    },
                }
            } else {
                let ghost base = children@;
                children.push(Inline::Text { value });
                proof {
                    lemma_inlines_view_push(base, Inline::Text { value });
                }
            }
        },
        other => {
            let ghost base = children@;
            children.push(other);
            proof {
                lemma_inlines_view_push(base, other);
            }
        },
    }
}
} // verus!

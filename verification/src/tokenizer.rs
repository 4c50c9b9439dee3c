use vstd::prelude::*;
use crate::diagnostics::{Diagnostic, Severity, SpecDiagnostic, diagnostics_view};
use crate::source_map::{SourceMap, byte_offset, byte_offsets};
use crate::span::Span;
use crate::text::{chars_of, push_char};
use crate::tokens::{CharType, SpecToken, Token, TokenTypes, char_type, tokens_view};

verus! {

/// The token of kind `kind` with text `value` that covers characters
/// `lo..hi` of `cs`; its span is in bytes.
pub open spec fn token_at(
    kind: TokenTypes,
    value: Seq<char>,
    cs: Seq<char>,
    lo: int,
    hi: int,
) -> SpecToken {
    SpecToken {
        kind,
        value: Some(value),
        span: Span { lo: byte_offset(cs, lo) as usize, hi: byte_offset(cs, hi) as usize },
    }
}

/// The first position at or after `k` whose character is not of class `ct`.
pub open spec fn class_end(cs: Seq<char>, k: int, ct: CharType) -> int
    decreases cs.len() - k,
{
    if 0 <= k < cs.len() && char_type(cs[k]) == ct {
        class_end(cs, k + 1, ct)
    } else {
        k
    }
}

/// The kind of token that a special character makes.
pub open spec fn special_kind(c: char) -> TokenTypes {
    if c == '#' {
        TokenTypes::Header
    } else if c == '[' {
        TokenTypes::AnchorValueStart
    } else if c == ']' {
        TokenTypes::AnchorValueEnd
    } else if c == '(' {
        TokenTypes::AnchorURLStart
    } else if c == ')' {
        TokenTypes::AnchorURLEnd
    } else if c == '<' {
        TokenTypes::UniqueIDBegin
    } else if c == '>' {
        TokenTypes::UniqueIDEnd
    } else if c == '{' {
        TokenTypes::ClassBegin
    } else if c == '}' {
        TokenTypes::ClassEnd
    } else {
        TokenTypes::Text
    }
}

/// The kind of token that a symbol makes; `None` for a symbol that makes
/// text and ends its run of symbols.
pub open spec fn symbol_kind(c: char) -> Option<TokenTypes> {
    if c == '!' {
        Some(TokenTypes::Image)
    } else if c == '*' {
        Some(TokenTypes::Emphasis)
    } else if c == '`' {
        Some(TokenTypes::BackTick)
    } else if c == '-' {
        Some(TokenTypes::Dash)
    } else if c == '_' {
        Some(TokenTypes::UnderScore)
    } else if c == ':' {
        Some(TokenTypes::Colon)
    } else if c == '@' {
        Some(TokenTypes::At)
    } else {
        None
    }
}

/// The end of a run of symbols from `k`: it stops before a character that
/// is not a symbol, or after a symbol that makes text.
pub open spec fn symbol_end(cs: Seq<char>, k: int) -> int
    decreases cs.len() - k,
{
    if 0 <= k < cs.len() && char_type(cs[k]) == CharType::Symbol {
        if symbol_kind(cs[k]) is Some {
            symbol_end(cs, k + 1)
        } else {
            k + 1
        }
    } else {
        k
    }
}

/// One token per character `k..end` of a run of special characters or
/// symbols that starts at `start`; every token's span starts at `start`.
pub open spec fn run_tokens(cs: Seq<char>, start: int, k: int, end: int, symbols: bool) -> Seq<
    SpecToken,
>
    decreases end - k,
{
    if k < end {
        let kind = if symbols {
            match symbol_kind(cs[k]) {
                Some(kd) => kd,
                None => TokenTypes::Text,
            }
        } else {
            special_kind(cs[k])
        };
        seq![token_at(kind, seq![cs[k]], cs, start, k + 1)] + run_tokens(
            cs,
            start,
            k + 1,
            end,
            symbols,
        )
    } else {
        Seq::empty()
    }
}

pub open spec fn unclosed_escape(cs: Seq<char>, i: int) -> SpecDiagnostic {
    SpecDiagnostic {
        severity: Severity::Error,
        message: "unclosed escape sequence"@,
        span: Span { lo: byte_offset(cs, i) as usize, hi: byte_offset(cs, cs.len() as int) as usize },
        label: Some("expected a character after backslash"@),
    }
}

pub proof fn lemma_class_end(cs: Seq<char>, k: int, ct: CharType)
    requires
        0 <= k <= cs.len(),
    ensures
        k <= class_end(cs, k, ct) <= cs.len(),
        0 <= k < cs.len() && char_type(cs[k]) == ct ==> class_end(cs, k, ct) > k,
        forall|m: int| k <= m < class_end(cs, k, ct) ==> char_type(#[trigger] cs[m]) == ct,
    decreases cs.len() - k,
{
    if 0 <= k < cs.len() && char_type(cs[k]) == ct {
        lemma_class_end(cs, k + 1, ct);
    }
}

pub proof fn lemma_symbol_end(cs: Seq<char>, k: int)
    requires
        0 <= k <= cs.len(),
    ensures
        k <= symbol_end(cs, k) <= cs.len(),
        0 <= k < cs.len() && char_type(cs[k]) == CharType::Symbol ==> symbol_end(cs, k) > k,
    decreases cs.len() - k,
{
    if 0 <= k < cs.len() && char_type(cs[k]) == CharType::Symbol && symbol_kind(cs[k]) is Some {
        lemma_symbol_end(cs, k + 1);
    }
}

/// The tokens and diagnostics for the characters of `cs` from `i` on.
pub open spec fn lex(cs: Seq<char>, i: int) -> (Seq<SpecToken>, Seq<SpecDiagnostic>)
    decreases cs.len() - i,
{
    if i < 0 || i >= cs.len() {
        (Seq::empty(), Seq::empty())
    } else {
        let c = cs[i];
        let ct = char_type(c);
        if ct == CharType::WhiteSpace {
            let r = lex(cs, i + 1);
            (seq![token_at(TokenTypes::WhiteSpace, seq![' '], cs, i, i + 1)] + r.0, r.1)
        } else if ct == CharType::Letter {
            proof {
                lemma_class_end(cs, i, ct);
            }
            let j = class_end(cs, i, ct);
            let r = lex(cs, j);
            (seq![token_at(TokenTypes::Text, cs.subrange(i, j), cs, i, j)] + r.0, r.1)
        } else if ct == CharType::Special {
            proof {
                lemma_class_end(cs, i, ct);
            }
            let j = class_end(cs, i, ct);
            let r = lex(cs, j);
            (run_tokens(cs, i, i, j, false) + r.0, r.1)
        } else if ct == CharType::Digit {
            proof {
                lemma_class_end(cs, i, ct);
            }
            let j = class_end(cs, i, ct);
            if j + 1 < cs.len() && cs[j] == '.' && cs[j + 1] == ' ' {
                let r = lex(cs, j + 1);
                (seq![token_at(TokenTypes::OrderedList, cs.subrange(i, j), cs, i, j + 1)] + r.0, r.1)
            } else {
                let r = lex(cs, j);
                (seq![token_at(TokenTypes::Text, cs.subrange(i, j), cs, i, j)] + r.0, r.1)
            }
        } else if ct == CharType::NewLine {
            let r = lex(cs, i + 1);
            (seq![token_at(TokenTypes::NewLine, seq!['\n'], cs, i, i + 1)] + r.0, r.1)
        } else if ct == CharType::Symbol {
            proof {
                lemma_symbol_end(cs, i);
            }
            let j = symbol_end(cs, i);
            let r = lex(cs, j);
            (run_tokens(cs, i, i, j, true) + r.0, r.1)
        } else if ct == CharType::Escape {
            if i + 1 < cs.len() {
                let r = lex(cs, i + 2);
                (seq![token_at(TokenTypes::Escape, seq![cs[i + 1]], cs, i, i + 2)] + r.0, r.1)
            } else {
                (Seq::empty(), seq![unclosed_escape(cs, i)])
            }
        } else {
            let r = lex(cs, i + 1);
            (seq![token_at(TokenTypes::Text, seq![c], cs, i, i + 1)] + r.0, r.1)
        }
    }
}

fn class_end_exec(cs: &Vec<char>, k: usize, ct: CharType) -> (j: usize)
    requires
        k <= cs@.len(),
    ensures
        j == class_end(cs@, k as int, ct),
{
    proof {
        lemma_class_end(cs@, k as int, ct);
    }
    let mut j = k;
    while j < cs.len() && CharType::classify_char(cs[j]) == ct
        invariant
            k <= j <= cs@.len(),
            class_end(cs@, k as int, ct) == class_end(cs@, j as int, ct),
        decreases cs@.len() - j,
    {
        j = j + 1;
    }
    j
}

fn symbol_kind_exec(c: char) -> (r: Option<TokenTypes>)
    ensures
        r == symbol_kind(c),
{
    if c == '!' {
        Some(TokenTypes::Image)
    } else if c == '*' {
        Some(TokenTypes::Emphasis)
    } else if c == '`' {
        Some(TokenTypes::BackTick)
    } else if c == '-' {
        Some(TokenTypes::Dash)
    } else if c == '_' {
        Some(TokenTypes::UnderScore)
    } else if c == ':' {
        Some(TokenTypes::Colon)
    } else if c == '@' {
        Some(TokenTypes::At)
    } else {
        None
    }
}

fn special_kind_exec(c: char) -> (r: TokenTypes)
    ensures
        r == special_kind(c),
{
    if c == '#' {
        TokenTypes::Header
    } else if c == '[' {
        TokenTypes::AnchorValueStart
    } else if c == ']' {
        TokenTypes::AnchorValueEnd
    } else if c == '(' {
        TokenTypes::AnchorURLStart
    } else if c == ')' {
        TokenTypes::AnchorURLEnd
    } else if c == '<' {
        TokenTypes::UniqueIDBegin
    } else if c == '>' {
        TokenTypes::UniqueIDEnd
    } else if c == '{' {
        TokenTypes::ClassBegin
    } else if c == '}' {
        TokenTypes::ClassEnd
    } else {
        TokenTypes::Text
    }
}

fn symbol_end_exec(cs: &Vec<char>, k: usize) -> (j: usize)
    requires
        k <= cs@.len(),
    ensures
        j == symbol_end(cs@, k as int),
{
    proof {
        lemma_symbol_end(cs@, k as int);
    }
    let mut j = k;
    while j < cs.len() && CharType::classify_char(cs[j]) == CharType::Symbol
        invariant
            k <= j <= cs@.len(),
            symbol_end(cs@, k as int) == symbol_end(cs@, j as int),
        decreases cs@.len() - j,
    {
        if symbol_kind_exec(cs[j]).is_none() {
            return j + 1;
        }
        j = j + 1;
    }
    j
}

/// A `String` of one character.
fn single(c: char) -> (s: String)
    ensures
        s@ == seq![c],
{
    let mut s = String::new();
    push_char(&mut s, c);
    s
}

/// The characters `lo..hi` of `cs` as a `String`.
fn substring(cs: &Vec<char>, lo: usize, hi: usize) -> (s: String)
    requires
        lo <= hi <= cs@.len(),
    ensures
        s@ == cs@.subrange(lo as int, hi as int),
{
    let mut s = String::new();
    let mut k = lo;
    while k < hi
        invariant
            lo <= k <= hi <= cs@.len(),
            s@ == cs@.subrange(lo as int, k as int),
        decreases hi - k,
    {
        push_char(&mut s, cs[k]);
        k = k + 1;
    }
    s
}

pub proof fn lemma_tokens_view_push(s: Seq<Token>, t: Token)
    ensures
        tokens_view(s.push(t)) == tokens_view(s).push(t@),
{
    assert(tokens_view(s.push(t)) =~= tokens_view(s).push(t@));
}

pub proof fn lemma_diagnostics_view_push(s: Seq<Diagnostic>, d: Diagnostic)
    ensures
        diagnostics_view(s.push(d)) == diagnostics_view(s).push(d@),
{
    assert(diagnostics_view(s.push(d)) =~= diagnostics_view(s).push(d@));
}

/// The tokens of a source text, and what went wrong on the way.
#[derive(Debug)]
pub struct TokenList {
    pub tokens: Vec<Token>,
    pub diagnostics: Vec<Diagnostic>,
}

impl TokenList {
    pub fn new() -> (l: TokenList)
        ensures
            l.tokens@.len() == 0,
            l.diagnostics@.len() == 0,
    {
        TokenList { tokens: Vec::new(), diagnostics: Vec::new() }
    }

    fn append_tokens(&mut self, token: Token)
        ensures
            tokens_view(final(self).tokens@) == tokens_view(old(self).tokens@).push(token@),
            final(self).diagnostics@ == old(self).diagnostics@,
    {
        proof {
            lemma_tokens_view_push(self.tokens@, token);
        }
        self.tokens.push(token);
    }

    fn push_warning(&mut self, message: &str, span: Span, label: Option<&str>)
        ensures
            final(self).tokens@ == old(self).tokens@,
            diagnostics_view(final(self).diagnostics@) == diagnostics_view(
                old(self).diagnostics@,
            ).push(
                SpecDiagnostic {
                    severity: Severity::Warning,
                    message: message@,
                    span,
                    label: match label {
                        Some(l) => Some(l@),
                        None => None,
                    },
                },
            ),
    {
        let d = Diagnostic {
            severity: Severity::Warning,
            message: message.to_owned(),
            span,
            label: match label {
                Some(l) => Some(l.to_owned()),
                None => None,
            },
        };
        proof {
            lemma_diagnostics_view_push(self.diagnostics@, d);
        }
        self.diagnostics.push(d);
    }

    fn push_error(&mut self, message: &str, span: Span, label: Option<&str>)
        ensures
            final(self).tokens@ == old(self).tokens@,
            diagnostics_view(final(self).diagnostics@) == diagnostics_view(
                old(self).diagnostics@,
            ).push(
                SpecDiagnostic {
                    severity: Severity::Error,
                    message: message@,
                    span,
                    label: match label {
                        Some(l) => Some(l@),
                        None => None,
                    },
                },
            ),
    {
        let d = Diagnostic {
            severity: Severity::Error,
            message: message.to_owned(),
            span,
            label: match label {
                Some(l) => Some(l.to_owned()),
                None => None,
            },
        };
        proof {
            lemma_diagnostics_view_push(self.diagnostics@, d);
        }
        self.diagnostics.push(d);
    }

    /// Appends the tokens of the source text, and the diagnostics for what
    /// could not be tokenized.
    pub fn tokenize(&mut self, source_map: &SourceMap)
        ensures
            tokens_view(final(self).tokens@) == tokens_view(old(self).tokens@) + lex(
                source_map.source@,
                0,
            ).0,
            diagnostics_view(final(self).diagnostics@) == diagnostics_view(
                old(self).diagnostics@,
            ) + lex(source_map.source@, 0).1,
    {
        let cs = chars_of(source_map.source.as_str());
        let total = source_map.source.as_str().as_bytes().len();
        let offs = byte_offsets(cs.as_slice(), total);
        let n = cs.len();
        let ghost t0 = tokens_view(self.tokens@);
        let ghost d0 = diagnostics_view(self.diagnostics@);
        let ghost all = lex(cs@, 0);
        let mut i: usize = 0;
        while i < n
            invariant
                n == cs@.len(),
                cs@ == source_map.source@,
                offs@.len() == n + 1,
                forall|k: int| 0 <= k <= n ==> #[trigger] offs@[k] == byte_offset(cs@, k),
                i <= n,
                all == lex(cs@, 0),
                tokens_view(self.tokens@) + lex(cs@, i as int).0 == t0 + all.0,
                diagnostics_view(self.diagnostics@) + lex(cs@, i as int).1 == d0 + all.1,
            decreases n - i,
        {
            let ghost before_t = tokens_view(self.tokens@);
            let ghost before_d = diagnostics_view(self.diagnostics@);
            let c = cs[i];
            let ct = CharType::classify_char(c);
            if ct == CharType::WhiteSpace {
                self.append_tokens(Token::new(TokenTypes::WhiteSpace, Some(single(' ')), Span::new(offs[i], offs[i + 1])));
                i = i + 1;
            } else if ct == CharType::Letter {
                let j = class_end_exec(&cs, i, ct);
                proof {
                    lemma_class_end(cs@, i as int, ct);
                }
                self.append_tokens(Token::new(TokenTypes::Text, Some(substring(&cs, i, j)), Span::new(offs[i], offs[j])));
                i = j;
            } else if ct == CharType::Special || ct == CharType::Symbol {
                let symbols = ct == CharType::Symbol;
                let j = if symbols {
                    symbol_end_exec(&cs, i)
                } else {
                    class_end_exec(&cs, i, ct)
                };
                proof {
                    lemma_class_end(cs@, i as int, ct);
                    lemma_symbol_end(cs@, i as int);
                }
                let mut k = i;
                while k < j
                    invariant
                        n == cs@.len(),
                        offs@.len() == n + 1,
                        forall|m: int| 0 <= m <= n ==> #[trigger] offs@[m] == byte_offset(cs@, m),
                        i <= k <= j <= n,
                        diagnostics_view(self.diagnostics@) == before_d,
                        tokens_view(self.tokens@) + run_tokens(cs@, i as int, k as int, j as int, symbols)
                            == before_t + run_tokens(cs@, i as int, i as int, j as int, symbols),
                    decreases j - k,
                {
                    let kind = if symbols {
                        match symbol_kind_exec(cs[k]) {
                            Some(kd) => kd,
                            None => TokenTypes::Text,
                        }
                    } else {
                        special_kind_exec(cs[k])
                    };
                    let ghost prev = tokens_view(self.tokens@);
                    self.append_tokens(Token::new(kind, Some(single(cs[k])), Span::new(offs[i], offs[k + 1])));
                    assert(tokens_view(self.tokens@) + run_tokens(cs@, i as int, k + 1, j as int, symbols)
                        =~= prev + run_tokens(cs@, i as int, k as int, j as int, symbols));
                    k = k + 1;
                }
                i = j;
            } else if ct == CharType::Digit {
                let j = class_end_exec(&cs, i, ct);
                proof {
                    lemma_class_end(cs@, i as int, ct);
                }
                if n - j > 1 && cs[j] == '.' && cs[j + 1] == ' ' {
                    self.append_tokens(Token::new(TokenTypes::OrderedList, Some(substring(&cs, i, j)), Span::new(offs[i], offs[j + 1])));
                    i = j + 1;
                } else {
                    self.append_tokens(Token::new(TokenTypes::Text, Some(substring(&cs, i, j)), Span::new(offs[i], offs[j])));
                    i = j;
                }
            } else if ct == CharType::NewLine {
                self.append_tokens(Token::new(TokenTypes::NewLine, Some(single('\n')), Span::new(offs[i], offs[i + 1])));
                i = i + 1;
            } else if ct == CharType::Escape {
                if i + 1 < n {
                    self.append_tokens(Token::new(TokenTypes::Escape, Some(single(cs[i + 1])), Span::new(offs[i], offs[i + 2])));
                    i = i + 2;
                } else {
                    self.push_error(
                        "unclosed escape sequence",
                        Span::new(offs[i], offs[n]),
                        Some("expected a character after backslash"),
                    );
                    i = n;
                }
            } else {
                self.append_tokens(Token::new(TokenTypes::Text, Some(single(c)), Span::new(offs[i], offs[i + 1])));
                i = i + 1;
            }
        }
    }
}

// ---------------------------------------------------------------------------
// Where the tokens lie in the source
/// The spans of `ts` start at `min` or later, end at `max` or earlier, do
/// not end before they start, and start in order.
pub open spec fn spans_within(ts: Seq<SpecToken>, min: int, max: int) -> bool {
    &&& forall|m: int|
        0 <= m < ts.len() ==> min <= (#[trigger] ts[m]).span.lo <= ts[m].span.hi <= max
    &&& forall|m1: int, m2: int|
        0 <= m1 <= m2 < ts.len() ==> (#[trigger] ts[m1]).span.lo <= (#[trigger] ts[m2]).span.lo
}

proof fn lemma_spans_concat(a: Seq<SpecToken>, b: Seq<SpecToken>, x: int, y: int, max: int)
    requires
        spans_within(a, x, max),
        spans_within(b, y, max),
        x <= y,
        forall|m: int| 0 <= m < a.len() ==> (#[trigger] a[m]).span.lo <= y,
    ensures
        spans_within(a + b, x, max),
{
    let c = a + b;
    assert forall|m1: int, m2: int| 0 <= m1 <= m2 < c.len() implies (#[trigger] c[m1]).span.lo
        <= (#[trigger] c[m2]).span.lo by {
        if m2 < a.len() {
            assert(c[m1] == a[m1] && c[m2] == a[m2]);
        } else if m1 < a.len() {
            assert(c[m1] == a[m1] && c[m2] == b[m2 - a.len()]);
        } else {
            assert(c[m1] == b[m1 - a.len()] && c[m2] == b[m2 - a.len()]);
        }
    }
    assert forall|m: int| 0 <= m < c.len() implies x <= (#[trigger] c[m]).span.lo <= c[m].span.hi
        <= max by {
        if m < a.len() {
            assert(c[m] == a[m]);
        } else {
            assert(c[m] == b[m - a.len()]);
        }
    }
}

proof fn lemma_run_tokens_spans(cs: Seq<char>, start: int, k: int, end: int, symbols: bool)
    requires
        0 <= start <= k <= end <= cs.len(),
        byte_offset(cs, cs.len() as int) <= usize::MAX,
    ensures
        spans_within(
            run_tokens(cs, start, k, end, symbols),
            byte_offset(cs, start) as int,
            byte_offset(cs, cs.len() as int) as int,
        ),
        forall|m: int|
            0 <= m < run_tokens(cs, start, k, end, symbols).len() ==> (#[trigger] run_tokens(
                cs,
                start,
                k,
                end,
                symbols,
            )[m]).span.lo == byte_offset(cs, start),
    decreases end - k,
{
    let n = cs.len() as int;
    crate::source_map::lemma_byte_offset_monotone(cs, start, n);
    if k < end {
        lemma_run_tokens_spans(cs, start, k + 1, end, symbols);
        crate::source_map::lemma_byte_offset_monotone(cs, start, k + 1);
        crate::source_map::lemma_byte_offset_monotone(cs, k + 1, n);
        let kind = if symbols {
            match symbol_kind(cs[k]) {
                Some(kd) => kd,
                None => TokenTypes::Text,
            }
        } else {
            special_kind(cs[k])
        };
        let head = seq![token_at(kind, seq![cs[k]], cs, start, k + 1)];
        let o = byte_offset(cs, start) as int;
        lemma_spans_concat(head, run_tokens(cs, start, k + 1, end, symbols), o, o, byte_offset(cs, n) as int);
    }
}

/// Spans of the tokens from `i` on, and of the diagnostics.
proof fn lemma_lex_spans(cs: Seq<char>, i: int)
    requires
        0 <= i <= cs.len(),
        byte_offset(cs, cs.len() as int) <= usize::MAX,
    ensures
        spans_within(lex(cs, i).0, byte_offset(cs, i) as int, byte_offset(cs, cs.len() as int) as int),
        forall|m: int|
            0 <= m < lex(cs, i).1.len() ==> (#[trigger] lex(cs, i).1[m]).span.lo <= lex(cs, i).1[m].span.hi
                <= byte_offset(cs, cs.len() as int),
    decreases cs.len() - i,
{
    let n = cs.len() as int;
    let max = byte_offset(cs, n) as int;
    crate::source_map::lemma_byte_offset_monotone(cs, i, n);
    if i < n {
        let c = cs[i];
        let ct = char_type(c);
        let oi = byte_offset(cs, i) as int;
        if ct == CharType::WhiteSpace || ct == CharType::NewLine || ct == CharType::Unknown {
            lemma_lex_spans(cs, i + 1);
            crate::source_map::lemma_byte_offset_monotone(cs, i, i + 1);
            crate::source_map::lemma_byte_offset_monotone(cs, i + 1, n);
            let kind = if ct == CharType::WhiteSpace {
                TokenTypes::WhiteSpace
            } else if ct == CharType::NewLine {
                TokenTypes::NewLine
            } else {
                TokenTypes::Text
            };
            let v = if ct == CharType::WhiteSpace {
                seq![' ']
            } else if ct == CharType::NewLine {
                seq!['\n']
            } else {
                seq![c]
            };
            let head = seq![token_at(kind, v, cs, i, i + 1)];
            lemma_spans_concat(head, lex(cs, i + 1).0, oi, byte_offset(cs, i + 1) as int, max);
        } else if ct == CharType::Letter || ct == CharType::Digit {
            lemma_class_end(cs, i, ct);
            let j = class_end(cs, i, ct);
            let e = if ct == CharType::Digit && j + 1 < n && cs[j] == '.' && cs[j + 1] == ' ' {
                j + 1
            } else {
                j
            };
            lemma_lex_spans(cs, e);
            crate::source_map::lemma_byte_offset_monotone(cs, i, e);
            crate::source_map::lemma_byte_offset_monotone(cs, e, n);
            let kind = if e == j + 1 {
                TokenTypes::OrderedList
            } else {
                TokenTypes::Text
            };
            let head = seq![token_at(kind, cs.subrange(i, j), cs, i, e)];
            lemma_spans_concat(head, lex(cs, e).0, oi, byte_offset(cs, e) as int, max);
        } else if ct == CharType::Special || ct == CharType::Symbol {
            lemma_class_end(cs, i, ct);
            lemma_symbol_end(cs, i);
            let symbols = ct == CharType::Symbol;
            let j = if symbols {
                symbol_end(cs, i)
            } else {
                class_end(cs, i, ct)
            };
            lemma_lex_spans(cs, j);
            lemma_run_tokens_spans(cs, i, i, j, symbols);
            crate::source_map::lemma_byte_offset_monotone(cs, i, j);
            lemma_spans_concat(run_tokens(cs, i, i, j, symbols), lex(cs, j).0, oi, byte_offset(cs, j) as int, max);
        } else if ct == CharType::Escape {
            if i + 1 < n {
                lemma_lex_spans(cs, i + 2);
                crate::source_map::lemma_byte_offset_monotone(cs, i, i + 2);
                crate::source_map::lemma_byte_offset_monotone(cs, i + 2, n);
                let head = seq![token_at(TokenTypes::Escape, seq![cs[i + 1]], cs, i, i + 2)];
                lemma_spans_concat(head, lex(cs, i + 2).0, oi, byte_offset(cs, i + 2) as int, max);
            }
        }
    }
}

/// Every token and diagnostic of a source lies within it: its span starts
/// no later than it ends and ends no later than the source; and the tokens
/// come in the order of their starts.
pub proof fn law_token_spans_in_source(cs: Seq<char>)
    requires
        byte_offset(cs, cs.len() as int) <= usize::MAX,
    ensures
        spans_within(lex(cs, 0).0, 0, byte_offset(cs, cs.len() as int) as int),
        forall|m: int|
            0 <= m < lex(cs, 0).1.len() ==> (#[trigger] lex(cs, 0).1[m]).span.lo <= lex(cs, 0).1[m].span.hi
                <= byte_offset(cs, cs.len() as int),
{
    lemma_lex_spans(cs, 0);
    assert(cs.take(0) == Seq::<char>::empty());
    assert(byte_offset(cs, 0) == 0);
}

} // verus!

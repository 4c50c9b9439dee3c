use vstd::prelude::*;
use vstd::utf8::{decode_utf8, encode_utf8, is_char_boundary, pop_first_scalar};
use crate::ast::SpecBlock;
use crate::parser_spec::{
    ParseState, code_body, code_language, kind_is, run_length, source_between, spec_code_block,
};
use crate::source_map::{byte_offset, lemma_byte_offset_monotone, lemma_encode_utf8_concat};
use crate::tokenizer::{class_end, lemma_class_end, lemma_symbol_end, lex, run_tokens, symbol_end};
use crate::tokens::{CharType, SpecToken, TokenTypes, char_type};

verus! {

// ---------------------------------------------------------------------------
// Slicing a source text by byte offsets of its characters
/// The byte offset of every character of `cs` is a character boundary of
/// its UTF-8 encoding.
pub proof fn lemma_char_boundary(cs: Seq<char>, k: int)
    requires
        0 <= k <= cs.len(),
    ensures
        is_char_boundary(encode_utf8(cs), byte_offset(cs, k) as int),
    decreases cs.len(),
{
    vstd::utf8::encode_utf8_valid_utf8(cs);
    if k == 0 {
        assert(cs.take(0) =~= Seq::<char>::empty());
    } else {
        let b = encode_utf8(cs);
        let rest = cs.drop_first();
        vstd::utf8::encode_utf8_first_scalar(cs);
        assert(pop_first_scalar(b) =~= encode_utf8(rest));
        lemma_char_boundary(rest, k - 1);
        let pre = cs.take(k);
        assert(pre.drop_first() =~= rest.take(k - 1));
        assert(pre[0] == cs[0]);
        assert(encode_utf8(pre) == vstd::utf8::encode_scalar(pre[0] as u32) + encode_utf8(
            pre.drop_first(),
        ));
        lemma_byte_offset_monotone(cs, k, cs.len() as int);
        assert(cs.take(cs.len() as int) =~= cs);
    }
}

/// Slicing a source text between the byte offsets of two of its characters
/// gives the characters between them.
pub proof fn law_source_between_chars(cs: Seq<char>, a: int, c: int)
    requires
        0 <= a <= c <= cs.len(),
    ensures
        source_between(cs, byte_offset(cs, a) as int, byte_offset(cs, c) as int) == Some(
            cs.subrange(a, c),
        ),
{
    let b = encode_utf8(cs);
    lemma_char_boundary(cs, a);
    lemma_char_boundary(cs, c);
    lemma_byte_offset_monotone(cs, a, c);
    lemma_byte_offset_monotone(cs, c, cs.len() as int);
    assert(cs.take(cs.len() as int) =~= cs);
    assert(cs =~= cs.take(a) + cs.subrange(a, c) + cs.skip(c));
    assert(cs.take(c) =~= cs.take(a) + cs.subrange(a, c));
    lemma_encode_utf8_concat(cs.take(a), cs.subrange(a, c));
    lemma_encode_utf8_concat(cs.take(a) + cs.subrange(a, c), cs.skip(c));
    assert(b.subrange(byte_offset(cs, a) as int, byte_offset(cs, c) as int) =~= encode_utf8(
        cs.subrange(a, c),
    ));
    vstd::utf8::encode_utf8_decode_utf8(cs.subrange(a, c));
}

// ---------------------------------------------------------------------------
// Where each token of the lexer ends
/// Token `k` of `t`, read from `cs` from character `i` on, ends at
/// character `ends[k]` and starts where the one before it ends; a newline or
/// backtick token covers exactly one such character.
pub open spec fn token_ends_ok(
    cs: Seq<char>,
    i: int,
    t: Seq<SpecToken>,
    ends: Seq<int>,
    k: int,
) -> bool {
    let s = if k == 0 {
        i
    } else {
        ends[k - 1]
    };
    &&& i <= s < ends[k] <= cs.len()
    &&& t[k].span.hi == byte_offset(cs, ends[k]) as usize
    &&& (t[k].kind == TokenTypes::NewLine ==> ends[k] == s + 1 && char_type(cs[s])
        == CharType::NewLine)
    &&& (t[k].kind == TokenTypes::BackTick ==> ends[k] == s + 1 && cs[s] == '`')
}

pub open spec fn ends_ok(cs: Seq<char>, i: int, t: Seq<SpecToken>, ends: Seq<int>) -> bool {
    &&& ends.len() == t.len()
    &&& forall|k: int| 0 <= k < t.len() ==> #[trigger] token_ends_ok(cs, i, t, ends, k)
}

/// Gluing the tokens of a piece that ends at `j` to those read from `j`.
proof fn lemma_ends_concat(
    cs: Seq<char>,
    i: int,
    j: int,
    a: Seq<SpecToken>,
    ea: Seq<int>,
    b: Seq<SpecToken>,
    eb: Seq<int>,
)
    requires
        ends_ok(cs, i, a, ea),
        ends_ok(cs, j, b, eb),
        a.len() > 0,
        ea.last() == j,
    ensures
        ends_ok(cs, i, a + b, ea + eb),
{
    let t = a + b;
    let e = ea + eb;
    assert(token_ends_ok(cs, i, a, ea, a.len() - 1));
    assert(i <= j);
    assert forall|k: int| 0 <= k < t.len() implies #[trigger] token_ends_ok(cs, i, t, e, k) by {
        if k < a.len() {
            assert(token_ends_ok(cs, i, a, ea, k));
            assert(t[k] == a[k]);
            assert(e[k] == ea[k]);
            if k > 0 {
                assert(e[k - 1] == ea[k - 1]);
            }
        } else {
            let m = k - a.len();
            assert(token_ends_ok(cs, j, b, eb, m));
            assert(t[k] == b[m]);
            assert(e[k] == eb[m]);
            if m > 0 {
                assert(e[k - 1] == eb[m - 1]);
            } else {
                assert(e[k - 1] == ea.last());
                assert(token_ends_ok(cs, i, a, ea, a.len() - 1));
                if a.len() > 1 {
                    assert(token_ends_ok(cs, i, a, ea, a.len() - 2));
                }
            }
        }
    }
}

/// The tokens of a run of special characters or symbols, one per character.
proof fn lemma_run_ends(cs: Seq<char>, start: int, k: int, end: int, symbols: bool) -> (ends: Seq<
    int,
>)
    requires
        start <= k <= end <= cs.len(),
        forall|m: int| k <= m < end ==> #[trigger] char_type(cs[m]) != CharType::NewLine,
    ensures
        ends_ok(cs, k, run_tokens(cs, start, k, end, symbols), ends),
        ends.len() > 0 ==> ends.last() == end,
        ends.len() == end - k,
    decreases end - k,
{
    let t = run_tokens(cs, start, k, end, symbols);
    if k < end {
        let rest = lemma_run_ends(cs, start, k + 1, end, symbols);
        let first = t.take(1);
        assert(char_type(cs[k]) != CharType::NewLine);
        let e1 = seq![k + 1];
        assert(token_ends_ok(cs, k, first, e1, 0));
        assert(t =~= first + run_tokens(cs, start, k + 1, end, symbols));
        if rest.len() > 0 {
            lemma_ends_concat(cs, k, k + 1, first, e1, run_tokens(cs, start, k + 1, end, symbols), rest);
        } else {
            assert(run_tokens(cs, start, k + 1, end, symbols).len() == 0);
            assert(t =~= first);
        }
        e1 + rest
    } else {
        Seq::empty()
    }
}

/// The tokens that the lexer reads from character `i` on: each ends at a
/// character, right where the next one starts.
pub proof fn lemma_lex_ends(cs: Seq<char>, i: int) -> (ends: Seq<int>)
    requires
        0 <= i,
    ensures
        ends_ok(cs, i, lex(cs, i).0, ends),
    decreases cs.len() - i,
{
    if i >= cs.len() {
        Seq::empty()
    } else {
        let c = cs[i];
        let ct = char_type(c);
        let t = lex(cs, i).0;
        if ct == CharType::Letter || ct == CharType::Special || ct == CharType::Digit {
            lemma_class_end(cs, i, ct);
            let j0 = class_end(cs, i, ct);
            if ct == CharType::Digit && j0 + 1 < cs.len() && cs[j0] == '.' && cs[j0 + 1] == ' ' {
                let j = j0 + 1;
                let rest = lemma_lex_ends(cs, j);
                let e1 = seq![j];
                assert(token_ends_ok(cs, i, t.take(1), e1, 0));
                assert(t =~= t.take(1) + lex(cs, j).0);
                if rest.len() > 0 {
                    lemma_ends_concat(cs, i, j, t.take(1), e1, lex(cs, j).0, rest);
                } else {
                    assert(t =~= t.take(1));
                }
                e1 + rest
            } else if ct == CharType::Special {
                let rest = lemma_lex_ends(cs, j0);
                let e1 = lemma_run_ends(cs, i, i, j0, false);
                let a = run_tokens(cs, i, i, j0, false);
                assert(t =~= a + lex(cs, j0).0);
                if rest.len() > 0 {
                    lemma_ends_concat(cs, i, j0, a, e1, lex(cs, j0).0, rest);
                } else {
                    assert(t =~= a);
                }
                e1 + rest
            } else {
                let rest = lemma_lex_ends(cs, j0);
                let e1 = seq![j0];
                assert(token_ends_ok(cs, i, t.take(1), e1, 0));
                assert(t =~= t.take(1) + lex(cs, j0).0);
                if rest.len() > 0 {
                    lemma_ends_concat(cs, i, j0, t.take(1), e1, lex(cs, j0).0, rest);
                } else {
                    assert(t =~= t.take(1));
                }
                e1 + rest
            }
        } else if ct == CharType::Symbol {
            lemma_symbol_end(cs, i);
            let j = symbol_end(cs, i);
            assert forall|m: int| i <= m < j implies #[trigger] char_type(cs[m])
                != CharType::NewLine by {
                lemma_symbol_end_chars(cs, i, m);
            }
            let rest = lemma_lex_ends(cs, j);
            let e1 = lemma_run_ends(cs, i, i, j, true);
            let a = run_tokens(cs, i, i, j, true);
            assert(t =~= a + lex(cs, j).0);
            if rest.len() > 0 {
                lemma_ends_concat(cs, i, j, a, e1, lex(cs, j).0, rest);
            } else {
                assert(t =~= a);
            }
            e1 + rest
        } else if ct == CharType::Escape && i + 1 >= cs.len() {
            Seq::empty()
        } else {
            let j = if ct == CharType::Escape {
                i + 2
            } else {
                i + 1
            };
            let rest = lemma_lex_ends(cs, j);
            let e1 = seq![j];
            assert(token_ends_ok(cs, i, t.take(1), e1, 0));
            assert(t =~= t.take(1) + lex(cs, j).0);
            if rest.len() > 0 {
                lemma_ends_concat(cs, i, j, t.take(1), e1, lex(cs, j).0, rest);
            } else {
                assert(t =~= t.take(1));
            }
            e1 + rest
        }
    }
}

/// The characters of a run of symbols are symbols.
proof fn lemma_symbol_end_chars(cs: Seq<char>, k: int, m: int)
    requires
        0 <= k <= m < symbol_end(cs, k),
    ensures
        char_type(cs[m]) == CharType::Symbol,
    decreases m - k,
{
    if m > k {
        lemma_symbol_end_chars(cs, k + 1, m);
    }
}

/// Token ends grow from one token to the next.
proof fn lemma_ends_grow(cs: Seq<char>, i: int, t: Seq<SpecToken>, ends: Seq<int>, a: int, b: int)
    requires
        ends_ok(cs, i, t, ends),
        0 <= a <= b < t.len(),
    ensures
        ends[a] <= ends[b],
    decreases b - a,
{
    if a < b {
        lemma_ends_grow(cs, i, t, ends, a, b - 1);
        assert(token_ends_ok(cs, i, t, ends, b));
    }
}

// ---------------------------------------------------------------------------
// The language line and the body of a code block
pub proof fn lemma_code_language(t: Seq<SpecToken>, pos: int, acc: Seq<char>)
    requires
        0 <= pos <= t.len(),
    ensures
        ({
            let p = code_language(t, pos, acc).0;
            p == t.len() || (pos < p <= t.len() && t[p - 1].kind == TokenTypes::NewLine)
        }),
    decreases t.len() - pos,
{
    if pos < t.len() && t[pos].kind != TokenTypes::NewLine {
        lemma_code_language(t, pos + 1, acc + crate::parser_spec::text_of(t[pos]));
    }
}

pub proof fn lemma_code_body(t: Seq<SpecToken>, pos: int, acc: Seq<char>)
    ensures
        code_body(t, pos, acc) matches Some((q, _c)) ==> 0 <= pos <= q - 2 && q <= t.len()
            && t[q - 2].kind == TokenTypes::BackTick && t[q - 1].kind == TokenTypes::BackTick,
    decreases t.len() - pos,
{
    if 0 <= pos < t.len() && !(t[pos].kind == TokenTypes::BackTick && kind_is(
        t,
        pos + 1,
        TokenTypes::BackTick,
    )) {
        let next = if t[pos].kind == TokenTypes::NewLine {
            acc.push('\n')
        } else if t[pos].kind == TokenTypes::WhiteSpace {
            acc.push(' ')
        } else {
            acc + crate::parser_spec::text_of(t[pos])
        };
        lemma_code_body(t, pos + 1, next);
    }
}

/// Code blocks are literal: the body of a code block read from a source
/// text is the text between the newline that ends its language line and
/// the two backticks that close it, exactly as the source has it.
pub proof fn law_code_block_is_source_text(cs: Seq<char>, st: ParseState)
    requires
        st.src == cs,
        byte_offset(cs, cs.len() as int) <= usize::MAX,
    ensures
        spec_code_block(lex(cs, 0).0, st) matches Ok((_st2, b)) ==> exists|a: int, c: int|
            #![trigger cs.subrange(a, c)]
            0 < a <= c && c + 2 <= cs.len() && char_type(cs[a - 1]) == CharType::NewLine && cs[c]
                == '`' && cs[c + 1] == '`' && (b matches SpecBlock::CodeBlock { code, .. } && code
                == cs.subrange(a, c)),
{
    let t = lex(cs, 0).0;
    let ends = lemma_lex_ends(cs, 0);
    let n = run_length(t, st.pos, TokenTypes::BackTick);
    if n == 2 && spec_code_block(t, st) is Ok {
        assert(0 <= st.pos < t.len()) by {
            if !(0 <= st.pos < t.len()) {
                assert(run_length(t, st.pos, TokenTypes::BackTick) == 0);
            }
        }
        assert(st.pos + 2 <= t.len()) by {
            assert(run_length(t, st.pos + 1, TokenTypes::BackTick) == 1);
        }
        let (p, _lang) = code_language(t, st.pos + 2, Seq::empty());
        lemma_code_language(t, st.pos + 2, Seq::empty());
        lemma_code_body(t, p, Seq::empty());
        let (q, rebuilt) = code_body(t, p, Seq::empty()).unwrap();
        let f = q - 2;
        assert(p < t.len());
        assert(t[p - 1].kind == TokenTypes::NewLine);
        let a = ends[p - 1];
        let c = ends[f - 1];
        assert(token_ends_ok(cs, 0, t, ends, p - 1));
        assert(token_ends_ok(cs, 0, t, ends, f));
        assert(token_ends_ok(cs, 0, t, ends, f + 1));
        lemma_ends_grow(cs, 0, t, ends, p - 1, f - 1);
        if p - 1 > 0 {
            assert(token_ends_ok(cs, 0, t, ends, p - 2));
        }
        assert(a - 1 == (if p - 1 == 0 {
            0
        } else {
            ends[p - 2]
        }));
        lemma_byte_offset_monotone(cs, a, cs.len() as int);
        lemma_byte_offset_monotone(cs, c, cs.len() as int);
        assert(t[p - 1].span.hi as int == byte_offset(cs, a) as int);
        assert(t[f - 1].span.hi as int == byte_offset(cs, c) as int) by {
            assert(token_ends_ok(cs, 0, t, ends, f - 1));
        }
        law_source_between_chars(cs, a, c);
        assert(cs[c] == '`' && cs[c + 1] == '`');
        assert(spec_code_block(t, st)->Ok_0.1 matches SpecBlock::CodeBlock { code, .. } && code
            == cs.subrange(a, c));
    }
}

} // verus!

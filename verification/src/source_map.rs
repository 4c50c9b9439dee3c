use vstd::prelude::*;
use vstd::utf8::{decode_utf8, encode_scalar, encode_utf8, is_char_boundary, valid_utf8};
use crate::span::Span;
use crate::text::chars_of;

verus! {

/// The number of bytes that the UTF-8 encoding of the first `i` characters
/// of `cs` takes: the byte offset of character `i`.
pub open spec fn byte_offset(cs: Seq<char>, i: int) -> nat {
    encode_utf8(cs.take(i)).len()
}

pub proof fn lemma_encode_utf8_concat(a: Seq<char>, b: Seq<char>)
    ensures
        encode_utf8(a + b) == encode_utf8(a) + encode_utf8(b),
    decreases a.len(),
{
    if a.len() > 0 {
        assert((a + b).drop_first() == a.drop_first() + b);
        assert((a + b)[0] == a[0]);
        lemma_encode_utf8_concat(a.drop_first(), b);
    } else {
        assert(a + b == b);
    }
}

/// The byte offset of character `i + 1` is that of character `i` plus the
/// width of character `i`.
pub proof fn lemma_byte_offset_step(cs: Seq<char>, i: int)
    requires
        0 <= i < cs.len(),
    ensures
        byte_offset(cs, i + 1) == byte_offset(cs, i) + encode_scalar(cs[i] as u32).len(),
{
    assert(cs.take(i + 1) == cs.take(i) + seq![cs[i]]);
    lemma_encode_utf8_concat(cs.take(i), seq![cs[i]]);
    let one = seq![cs[i]];
    assert(one.drop_first() == Seq::<char>::empty());
    assert(encode_utf8(Seq::<char>::empty()) == Seq::<u8>::empty());
    assert(encode_utf8(one) == encode_scalar(one[0] as u32) + encode_utf8(one.drop_first()));
    assert(encode_utf8(one) == encode_scalar(cs[i] as u32));
}

pub proof fn lemma_byte_offset_monotone(cs: Seq<char>, i: int, j: int)
    requires
        0 <= i <= j <= cs.len(),
    ensures
        byte_offset(cs, i) <= byte_offset(cs, j),
{
    assert(cs.take(j) == cs.take(i) + cs.subrange(i, j));
    lemma_encode_utf8_concat(cs.take(i), cs.subrange(i, j));
}

/// The number of bytes in the UTF-8 encoding of `c`.
pub fn char_len(c: char) -> (r: usize)
    ensures
        r == encode_scalar(c as u32).len(),
        1 <= r <= 4,
{
    proof {
        vstd::utf8::char_is_scalar(c);
    }
    let u = c as u32;
    if u <= 0x7f {
        1
    } else if u <= 0x7ff {
        2
    } else if u <= 0xffff {
        3
    } else {
        4
    }
}

/// The byte offset of every character of `cs`, and of its end.
pub fn byte_offsets(cs: &[char], total: usize) -> (v: Vec<usize>)
    requires
        encode_utf8(cs@).len() == total,
    ensures
        v@.len() == cs@.len() + 1,
        forall|k: int| 0 <= k <= cs@.len() ==> #[trigger] v@[k] == byte_offset(cs@, k),
{
    let n = cs.len();
    let mut v: Vec<usize> = Vec::new();
    v.push(0);
    let mut off: usize = 0;
    assert(cs@.take(0) == Seq::<char>::empty());
    for i in 0..n
        invariant
            n == cs@.len(),
            encode_utf8(cs@).len() == total,
            v@.len() == i + 1,
            off == byte_offset(cs@, i as int),
            forall|k: int| 0 <= k <= i ==> #[trigger] v@[k] == byte_offset(cs@, k),
    {
        proof {
            lemma_byte_offset_step(cs@, i as int);
            lemma_byte_offset_monotone(cs@, i + 1, n as int);
            assert(cs@.take(n as int) == cs@);
        }
        off = off + char_len(cs[i]);
        v.push(off);
    }
    v
}

/// Where each line of `cs` starts, in bytes: at 0 and after every newline.
pub open spec fn line_starts(cs: Seq<char>) -> Seq<usize>
    decreases cs.len(),
{
    if cs.len() == 0 {
        seq![0usize]
    } else {
        let r = line_starts(cs.drop_last());
        if cs.last() == '\n' {
            r.push(byte_offset(cs, cs.len() as int) as usize)
        } else {
            r
        }
    }
}

/// A source text and where its lines start.
#[derive(Debug)]
pub struct SourceMap {
    pub newlines: Vec<usize>,
    pub source: String,
}

impl SourceMap {
    /// The line starts belong to the source.
    pub open spec fn wf(&self) -> bool {
        self.newlines@ == line_starts(self.source@)
    }

    pub fn new(source: String) -> (m: SourceMap)
        ensures
            m.wf(),
            m.source@ == source@,
    {
        let cs = chars_of(source.as_str());
        let total = source.as_str().as_bytes().len();
        let offs = byte_offsets(cs.as_slice(), total);
        let n = cs.len();
        let mut newlines: Vec<usize> = Vec::new();
        newlines.push(0);
        assert(cs@.take(0) =~= Seq::<char>::empty());
        for i in 0..n
            invariant
                n == cs@.len(),
                offs@.len() == n + 1,
                forall|k: int| 0 <= k <= n ==> #[trigger] offs@[k] == byte_offset(cs@, k),
                newlines@ == line_starts(cs@.take(i as int)),
        {
            proof {
                assert(cs@.take(i + 1).drop_last() == cs@.take(i as int));
                assert(cs@.take(i + 1).last() == cs@[i as int]);
                assert(cs@.take(i + 1).take(i + 1) == cs@.take(i + 1));
                assert(cs@.take(i + 1) == cs@.take(i + 1));
            }
            if cs[i] == '\n' {
                proof {
                    assert(byte_offset(cs@.take(i + 1), i + 1) == byte_offset(cs@, i + 1)) by {
                        assert(cs@.take(i + 1).take(i + 1) == cs@.take(i + 1));
                    }
                }
                newlines.push(offs[i + 1]);
            }
        }
        assert(cs@.take(n as int) == cs@);
        SourceMap { newlines, source }
    }

    /// The line of byte offset `pos` (counted from 0) and its column in
    /// bytes: the last line that starts at or before `pos`.
    pub fn lookup_char_postion(&self, pos: usize) -> (r: (usize, usize))
        requires
            self.wf(),
        ensures
            r.0 == line_index(self.newlines@, pos as int),
            r.0 < self.newlines@.len(),
            self.newlines@[r.0 as int] <= pos,
            r.0 + 1 == self.newlines@.len() || pos < self.newlines@[r.0 + 1],
            r.1 == pos - self.newlines@[r.0 as int],
    {
        proof {
            lemma_line_starts_first(self.source@);
        }
        let n = self.newlines.len();
        let mut i: usize = n - 1;
        assert(self.newlines@.take(n as int) == self.newlines@);
        while self.newlines[i] > pos
            invariant
                n == self.newlines@.len(),
                n >= 1,
                self.newlines@[0] == 0,
                i < n,
                line_index(self.newlines@, pos as int) == line_index(
                    self.newlines@.take(i + 1),
                    pos as int,
                ),
                forall|k: int| i < k < n ==> self.newlines@[k] > pos,
            decreases i,
        {
            proof {
                let t = self.newlines@.take(i + 1);
                assert(t.drop_last() == self.newlines@.take(i as int));
            }
            i = i - 1;
        }
        proof {
            let t = self.newlines@.take(i + 1);
            assert(t.last() == self.newlines@[i as int]);
        }
        (i, pos - self.newlines[i])
    }
}

impl SourceMap {
    /// The text of the source that `span` covers, given in bytes; both ends
    /// must fall on character boundaries.
    pub fn snippet(&self, span: Span) -> (r: &str)
        requires
            span.lo <= span.hi,
            is_char_boundary(encode_utf8(self.source@), span.lo as int),
            is_char_boundary(encode_utf8(self.source@), span.hi as int),
        ensures
            encode_utf8(r@) == encode_utf8(self.source@).subrange(span.lo as int, span.hi as int),
            r@ == decode_utf8(encode_utf8(self.source@).subrange(span.lo as int, span.hi as int)),
    {
        let ghost bytes = encode_utf8(self.source@);
        let s = self.source.as_str();
        proof {
            vstd::utf8::encode_utf8_valid_utf8(self.source@);
            lemma_boundary_prefix(bytes, span.lo as int, span.hi as int);
        }
        let (a, _rest) = s.split_at(span.hi);
        let (_front, b) = a.split_at(span.lo);
        proof {
            let a_bytes = bytes.subrange(0, span.hi as int);
            assert(encode_utf8(b@) == a_bytes.subrange(span.lo as int, a_bytes.len() as int));
            assert(a_bytes.subrange(span.lo as int, a_bytes.len() as int) =~= bytes.subrange(
                span.lo as int,
                span.hi as int,
            ));
            vstd::utf8::encode_utf8_decode_utf8(b@);
        }
        b
    }
}

/// The text of `s` between byte offsets `lo` and `hi`, where these are
/// character boundaries of `s` in order; `None` otherwise.
pub fn text_between(s: &str, lo: usize, hi: usize) -> (r: Option<&str>)
    ensures
        match crate::parser_spec::source_between(s@, lo as int, hi as int) {
            Some(x) => r matches Some(y) && y@ == x,
            None => r is None,
        },
{
    let n = s.as_bytes().len();
    if lo <= hi && hi <= n && s.is_char_boundary(lo) && s.is_char_boundary(hi) {
        let ghost bytes = encode_utf8(s@);
        proof {
            vstd::utf8::encode_utf8_valid_utf8(s@);
            lemma_boundary_prefix(bytes, lo as int, hi as int);
        }
        let (a, _rest) = s.split_at(hi);
        let (_front, b) = a.split_at(lo);
        proof {
            let a_bytes = bytes.subrange(0, hi as int);
            assert(encode_utf8(b@) == a_bytes.subrange(lo as int, a_bytes.len() as int));
            assert(a_bytes.subrange(lo as int, a_bytes.len() as int) =~= bytes.subrange(
                lo as int,
                hi as int,
            ));
            vstd::utf8::encode_utf8_decode_utf8(b@);
        }
        Some(b)
    } else {
        None
    }
}

/// A character boundary of a byte sequence before another boundary `hi`
/// is a boundary of the first `hi` bytes.
proof fn lemma_boundary_prefix(bytes: Seq<u8>, lo: int, hi: int)
    requires
        valid_utf8(bytes),
        lo <= hi,
        is_char_boundary(bytes, lo),
        is_char_boundary(bytes, hi),
    ensures
        is_char_boundary(bytes.subrange(0, hi), lo),
        valid_utf8(bytes.subrange(0, hi)),
{
    vstd::utf8::valid_utf8_split(bytes, hi);
    let a = bytes.subrange(0, hi);
    if lo == 0 {
    } else if lo == hi {
        vstd::utf8::is_char_boundary_start_end_of_seq(a);
    } else {
        assert(0 <= lo < bytes.len()) by {
            if lo < 0 || lo > bytes.len() {
                assert(!is_char_boundary(bytes, lo)) by {
                    reveal_with_fuel(is_char_boundary, 1);
                }
            }
            if lo == bytes.len() {
                assert(hi <= bytes.len()) by {
                    if hi > bytes.len() {
                        reveal_with_fuel(is_char_boundary, 1);
                    }
                }
            }
        }
        vstd::utf8::is_char_boundary_iff_not_is_continuation_byte(bytes, lo);
        vstd::utf8::is_char_boundary_iff_not_is_continuation_byte(a, lo);
    }
}

/// The last index of `ls` whose value is at most `pos`; -1 where there is none.
pub open spec fn line_index(ls: Seq<usize>, pos: int) -> int
    decreases ls.len(),
{
    if ls.len() == 0 {
        -1
    } else if ls.last() <= pos {
        ls.len() - 1
    } else {
        line_index(ls.drop_last(), pos)
    }
}

pub proof fn lemma_line_starts_first(cs: Seq<char>)
    ensures
        line_starts(cs).len() >= 1,
        line_starts(cs)[0] == 0,
    decreases cs.len(),
{
    if cs.len() > 0 {
        lemma_line_starts_first(cs.drop_last());
    }
}

/// There are as many lines as line starts.
pub proof fn lemma_line_count(cs: Seq<char>)
    ensures
        line_starts(cs).len() == crate::text::split_on(cs, '\n').len(),
    decreases cs.len(),
{
    if cs.len() > 0 {
        lemma_line_count(cs.drop_last());
        crate::text::lemma_split_on_nonempty(cs.drop_last(), '\n');
    }
}

/// The number of newlines in `cs`.
pub open spec fn newline_count(cs: Seq<char>) -> nat
    decreases cs.len(),
{
    if cs.len() == 0 {
        0
    } else {
        newline_count(cs.drop_last()) + if cs.last() == '\n' {
            1nat
        } else {
            0nat
        }
    }
}

proof fn lemma_byte_offset_drop_last(cs: Seq<char>, i: int)
    requires
        0 <= i < cs.len(),
    ensures
        byte_offset(cs, i) == byte_offset(cs.drop_last(), i),
{
    assert(cs.take(i) == cs.drop_last().take(i));
}

/// One line start per newline, plus the first; none beyond the end.
proof fn lemma_line_starts_shape(cs: Seq<char>)
    requires
        byte_offset(cs, cs.len() as int) <= usize::MAX,
    ensures
        line_starts(cs).len() == 1 + newline_count(cs),
        forall|k: int|
            0 <= k < line_starts(cs).len() ==> #[trigger] line_starts(cs)[k] <= byte_offset(
                cs,
                cs.len() as int,
            ),
    decreases cs.len(),
{
    if cs.len() > 0 {
        let d = cs.drop_last();
        let n = cs.len() as int;
        lemma_byte_offset_step(cs, n - 1);
        lemma_byte_offset_drop_last(cs, n - 1);
        assert(d.take(n - 1) == d);
        lemma_line_starts_shape(d);
    }
}

/// The line of a character is the number of newlines before it: looking
/// up its byte offset among the line starts of the source finds the line
/// after its last preceding newline.
pub proof fn law_line_of_character(cs: Seq<char>, i: int)
    requires
        0 <= i <= cs.len(),
        byte_offset(cs, cs.len() as int) <= usize::MAX,
    ensures
        line_index(line_starts(cs), byte_offset(cs, i) as int) == newline_count(cs.take(i)),
    decreases cs.len(),
{
    lemma_line_starts_shape(cs);
    if cs.len() == 0 {
        assert(cs.take(i) == cs);
    } else {
        let d = cs.drop_last();
        let n = cs.len() as int;
        lemma_byte_offset_step(cs, n - 1);
        lemma_byte_offset_drop_last(cs, n - 1);
        assert(d.take(n - 1) == d);
        lemma_line_starts_shape(d);
        let ls = line_starts(cs);
        let lsd = line_starts(d);
        if i == n {
            assert(cs.take(i) == cs);
            if cs.last() != '\n' {
                assert(ls == lsd);
                assert(ls.last() <= byte_offset(cs, i));
            }
        } else {
            lemma_byte_offset_drop_last(cs, i);
            lemma_byte_offset_monotone(cs, i, n - 1);
            assert(cs.take(i) == d.take(i));
            law_line_of_character(d, i);
            if cs.last() == '\n' {
                assert(ls.drop_last() == lsd);
            }
        }
    }
}

} // verus!

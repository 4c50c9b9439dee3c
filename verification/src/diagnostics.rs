use vstd::prelude::*;
use crate::source_map::{SourceMap, line_index, lemma_line_count};
use crate::span::{HasSpan, Span};
use crate::text::{chars_of, decimal, push_char, push_decimal, split_chars, split_on};

verus! {

#[derive(Debug, Clone, Copy, PartialEq, Eq, Structural)]
pub enum Severity {
    Error,
    Warning,
    Help,
}

/// A message about a range of the source.
#[derive(Debug)]
pub struct Diagnostic {
    pub severity: Severity,
    pub message: String,
    pub span: Span,
    pub label: Option<String>,
}

/// The mathematical value of a [`Diagnostic`].
#[verifier::ext_equal]
pub struct SpecDiagnostic {
    pub severity: Severity,
    pub message: Seq<char>,
    pub span: Span,
    pub label: Option<Seq<char>>,
}

impl View for Diagnostic {
    type V = SpecDiagnostic;

    open spec fn view(&self) -> SpecDiagnostic {
        SpecDiagnostic {
            severity: self.severity,
            message: self.message@,
            span: self.span,
            label: match self.label {
                Some(l) => Some(l@),
                None => None,
            },
        }
    }
}

pub open spec fn diagnostics_view(s: Seq<Diagnostic>) -> Seq<SpecDiagnostic> {
    Seq::new(s.len(), |i: int| s[i]@)
}

impl Diagnostic {
    pub fn error(message: String, span: Span) -> (d: Diagnostic)
        ensures
            d@ == (SpecDiagnostic { severity: Severity::Error, message: message@, span, label: None }),
    {
        Diagnostic { severity: Severity::Error, message, span, label: None }
    }

    pub fn warning(message: String, span: Span) -> (d: Diagnostic)
        ensures
            d@ == (SpecDiagnostic {
                severity: Severity::Warning,
                message: message@,
                span,
                label: None,
            }),
    {
        Diagnostic { severity: Severity::Warning, message, span, label: None }
    }

    pub fn help(message: String, span: Span) -> (d: Diagnostic)
        ensures
            d@ == (SpecDiagnostic { severity: Severity::Help, message: message@, span, label: None }),
    {
        Diagnostic { severity: Severity::Help, message, span, label: None }
    }

    /// The same diagnostic with `label` under its highlight.
    pub fn with_label(self, label: String) -> (d: Diagnostic)
        ensures
            d@ == (SpecDiagnostic { label: Some(label@), ..self@ }),
    {
        let mut d = self;
        d.label = Some(label);
        d
    }
}

impl HasSpan for Diagnostic {
    fn span(&self) -> (s: Span)
        ensures
            s == self.span,
    {
        self.span
    }
}

pub open spec fn severity_name(s: Severity) -> Seq<char> {
    match s {
        Severity::Error => "error"@,
        Severity::Warning => "warning"@,
        Severity::Help => "help"@,
    }
}

/// The terminal escape that colours a severity: bold red, yellow or cyan.
pub open spec fn severity_color(s: Severity) -> Seq<char> {
    match s {
        Severity::Error => "\x1b[31;1m"@,
        Severity::Warning => "\x1b[33;1m"@,
        Severity::Help => "\x1b[36;1m"@,
    }
}

pub open spec fn reset_color() -> Seq<char> {
    "\x1b[0m"@
}

impl Severity {
    fn to_str(&self) -> (s: &'static str)
        ensures
            s@ == severity_name(*self),
    {
        match self {
            Severity::Error => "error",
            Severity::Warning => "warning",
            Severity::Help => "help",
        }
    }

    fn color_code(&self) -> (s: &'static str)
        ensures
            s@ == severity_color(*self),
    {
        match self {
            Severity::Error => "\x1b[31;1m",
            Severity::Warning => "\x1b[33;1m",
            Severity::Help => "\x1b[36;1m",
        }
    }

    fn reset_code(&self) -> (s: &'static str)
        ensures
            s@ == reset_color(),
    {
        "\x1b[0m"
    }
}

/// `n` copies of `c`.
pub open spec fn repeat(c: char, n: nat) -> Seq<char> {
    Seq::new(n, |i: int| c)
}

fn push_repeat(s: &mut String, c: char, n: usize)
    ensures
        final(s)@ == old(s)@ + repeat(c, n as nat),
{
    for i in 0..n
        invariant
            s@ == old(s)@ + repeat(c, i as nat),
    {
        push_char(s, c);
        assert(repeat(c, (i + 1) as nat) =~= repeat(c, i as nat).push(c));
    }
}

/// The text that shows a diagnostic against its source: a header with the
/// severity and message, the line and column (counted from 1), the source
/// line in a numbered margin, and a row of carets under the span (at least
/// one) followed by the label.
pub open spec fn rendered(source: Seq<char>, line_starts: Seq<usize>, d: SpecDiagnostic) -> Seq<
    char,
> {
    let line = line_index(line_starts, d.span.lo as int);
    let col = d.span.lo - line_starts[line];
    let num = decimal((line + 1) as nat);
    let margin = " "@ + num + " |"@;
    let empty = repeat(' ', (margin.len() - 1) as nat) + "|"@;
    let text = split_on(source, '\n')[line];
    let width: nat = if d.span.hi - d.span.lo >= 1 {
        (d.span.hi - d.span.lo) as nat
    } else {
        1
    };
    let label = match d.label {
        Some(l) => " "@ + l,
        None => Seq::empty(),
    };
    severity_color(d.severity) + severity_name(d.severity) + reset_color() + ": "@ + d.message
        + "\n"@ + "  --> input:"@ + num + ":"@ + decimal((col + 1) as nat) + "\n"@ + empty
        + "\n"@ + margin + " "@ + text + "\n"@ + empty + " "@ + repeat(' ', col as nat) + repeat(
        '^',
        width,
    ) + label + "\n"@ + empty + "\n"@ + "\n"@
}

/// Shows diagnostics against the source they are about.
pub struct DiagnosticPrinter<'a> {
    source_map: &'a SourceMap,
}

impl<'a> DiagnosticPrinter<'a> {
    /// The source map that this printer shows diagnostics against.
    pub closed spec fn map(&self) -> SourceMap {
        *self.source_map
    }

    pub fn new(source_map: &'a SourceMap) -> (p: DiagnosticPrinter<'a>)
        ensures
            p.map() == *source_map,
    {
        DiagnosticPrinter { source_map }
    }

    /// The text that shows `diagnostic`.
    pub fn render(&self, diagnostic: &Diagnostic) -> (r: String)
        requires
            self.map().wf(),
            diagnostic.span.lo <= diagnostic.span.hi,
            diagnostic.span.lo < usize::MAX,
        ensures
            r@ == rendered(self.map().source@, self.map().newlines@, diagnostic@),
    {
        let _nl = self.source_map.newlines.len();
        let (line_idx, col_idx) = self.source_map.lookup_char_postion(diagnostic.span.lo);
        let line_num = line_idx + 1;
        let col_num = col_idx + 1;
        let mut out = String::new();
        out.append(diagnostic.severity.color_code());
        out.append(diagnostic.severity.to_str());
        out.append(diagnostic.severity.reset_code());
        out.append(": ");
        out.append(diagnostic.message.as_str());
        out.append("\n");
        out.append("  --> input:");
        push_decimal(&mut out, line_num);
        out.append(":");
        push_decimal(&mut out, col_num);
        out.append("\n");
        let cs = chars_of(self.source_map.source.as_str());
        let lines = split_chars(cs.as_slice(), '\n');
        proof {
            lemma_line_count(cs@);
        }
        let mut margin = String::new();
        margin.append(" ");
        push_decimal(&mut margin, line_num);
        margin.append(" |");
        let margin_len = chars_of(margin.as_str()).len();
        let mut empty_margin = String::new();
        proof {
            reveal_strlit(" ");
            reveal_strlit(" |");
        }
        push_repeat(&mut empty_margin, ' ', margin_len - 1);
        empty_margin.append("|");
        out.append(empty_margin.as_str());
        out.append("\n");
        out.append(margin.as_str());
        out.append(" ");
        extend_string_chars(&mut out, &lines[line_idx]);
        out.append("\n");
        let span_len = if diagnostic.span.hi - diagnostic.span.lo >= 1 {
            diagnostic.span.hi - diagnostic.span.lo
        } else {
            1
        };
        out.append(empty_margin.as_str());
        out.append(" ");
        push_repeat(&mut out, ' ', col_idx);
        push_repeat(&mut out, '^', span_len);
        match &diagnostic.label {
            Some(label) => {
                out.append(" ");
                out.append(label.as_str());
            },
            None => {},
        }
        out.append("\n");
        out.append(empty_margin.as_str());
        out.append("\n");
        out.append("\n");
        out
    }

    /// The texts that show each of `diagnostics`, one after another.
    pub fn render_multiple(&self, diagnostics: &[&Diagnostic]) -> (r: String)
        requires
            self.map().wf(),
            forall|i: int|
                0 <= i < diagnostics@.len() ==> (#[trigger] diagnostics@[i]).span.lo
                    <= diagnostics@[i].span.hi && diagnostics@[i].span.lo < usize::MAX,
        ensures
            r@ == rendered_all(
                self.map().source@,
                self.map().newlines@,
                Seq::new(diagnostics@.len(), |i: int| diagnostics@[i]@),
            ),
    {
        let ghost ds = Seq::new(diagnostics@.len(), |i: int| diagnostics@[i]@);
        let mut out = String::new();
        let n = diagnostics.len();
        for i in 0..n
            invariant
                n == diagnostics@.len(),
                self.map().wf(),
                ds == Seq::new(diagnostics@.len(), |i: int| diagnostics@[i]@),
                forall|i: int|
                    0 <= i < diagnostics@.len() ==> (#[trigger] diagnostics@[i]).span.lo
                        <= diagnostics@[i].span.hi && diagnostics@[i].span.lo < usize::MAX,
                out@ == rendered_all(self.map().source@, self.map().newlines@, ds.take(i as int)),
        {
            let d: &Diagnostic = diagnostics[i];
            out.append(self.render(d).as_str());
            proof {
                assert(ds.take(i + 1).drop_last() == ds.take(i as int));
            }
        }
        assert(ds.take(n as int) == ds);
        out
    }
}

/// The texts that show each diagnostic of `ds`, one after another.
pub open spec fn rendered_all(source: Seq<char>, line_starts: Seq<usize>, ds: Seq<SpecDiagnostic>) -> Seq<
    char,
>
    decreases ds.len(),
{
    if ds.len() == 0 {
        Seq::empty()
    } else {
        rendered_all(source, line_starts, ds.drop_last()) + rendered(source, line_starts, ds.last())
    }
}

/// Appends characters to a `String`.
fn extend_string_chars(s: &mut String, cs: &Vec<char>)
    ensures
        final(s)@ == old(s)@ + cs@,
{
    crate::text::push_chars(s, cs.as_slice());
}

} // verus!

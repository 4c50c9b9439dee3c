use tim::diagnostics::{Diagnostic, DiagnosticPrinter, Severity};
use tim::source_map::SourceMap;
use tim::span::{HasSpan, Span};

#[test]
fn constructors_and_label() {
    let e = Diagnostic::error("bad".to_string(), Span::new(1, 2));
    assert_eq!(e.severity, Severity::Error);
    assert_eq!(e.message, "bad");
    assert_eq!(e.label, None);
    assert_eq!(e.span(), Span::new(1, 2));
    let w = Diagnostic::warning("careful".to_string(), Span::new(0, 0));
    assert_eq!(w.severity, Severity::Warning);
    let h = Diagnostic::help("try".to_string(), Span::new(0, 1)).with_label("this".to_string());
    assert_eq!(h.severity, Severity::Help);
    assert_eq!(h.message, "try");
    assert_eq!(h.label.as_deref(), Some("this"));
}

#[test]
fn render_error_with_label() {
    let map = SourceMap::new("let x = 1;\nfoo bar\n".to_string());
    let printer = DiagnosticPrinter::new(&map);
    let d = Diagnostic::error("bad".to_string(), Span::new(12, 15)).with_label("here".to_string());
    assert_eq!(
        printer.render(&d),
        "\x1b[31;1merror\x1b[0m: bad\n  --> input:2:2\n   |\n 2 | foo bar\n   |  ^^^ here\n   |\n\n"
    );
}

#[test]
fn render_empty_span_shows_one_caret() {
    let map = SourceMap::new("abc".to_string());
    let printer = DiagnosticPrinter::new(&map);
    let d = Diagnostic::warning("w".to_string(), Span::new(0, 0));
    assert_eq!(
        printer.render(&d),
        "\x1b[33;1mwarning\x1b[0m: w\n  --> input:1:1\n   |\n 1 | abc\n   | ^\n   |\n\n"
    );
}

#[test]
fn render_wide_margin() {
    let src = "x\n".repeat(10) + "last";
    let map = SourceMap::new(src);
    let printer = DiagnosticPrinter::new(&map);
    let d = Diagnostic::help("h".to_string(), Span::new(21, 23));
    assert_eq!(
        printer.render(&d),
        "\x1b[36;1mhelp\x1b[0m: h\n  --> input:11:2\n    |\n 11 | last\n    |  ^^\n    |\n\n"
    );
}

#[test]
fn render_multiple_concatenates() {
    let map = SourceMap::new("ab".to_string());
    let printer = DiagnosticPrinter::new(&map);
    let d1 = Diagnostic::error("one".to_string(), Span::new(0, 1));
    let d2 = Diagnostic::error("two".to_string(), Span::new(1, 2));
    let all = printer.render_multiple(&[&d1, &d2]);
    assert_eq!(all, printer.render(&d1) + &printer.render(&d2));
    assert_eq!(printer.render_multiple(&[]), "");
}

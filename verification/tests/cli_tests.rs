use tim::cli::{CliAction, CliConfig, CliError};

fn run(args: &[&str]) -> CliAction {
    let v: Vec<String> = args.iter().map(|s| s.to_string()).collect();
    CliConfig::parse(&v)
}

fn config(args: &[&str]) -> CliConfig {
    match run(args) {
        CliAction::Run(c) => c,
        other => panic!("expected a configuration, got {:?}", other),
    }
}

fn error(args: &[&str]) -> CliError {
    match run(args) {
        CliAction::Fail(e) => e,
        other => panic!("expected an error, got {:?}", other),
    }
}

#[test]
fn output_file_is_inferred() {
    let c = config(&["tim", "docs/page.tim"]);
    assert_eq!(c.input_file, "docs/page.tim");
    assert_eq!(c.output_file.as_deref(), Some("docs/page.html"));
    assert_eq!(c.wrap_tag, None);
    assert!(!c.dry_run);
}

#[test]
fn explicit_output_and_wrap() {
    let c = config(&["tim", "-o", "out.html", "-w", "main", "a.tim"]);
    assert_eq!(c.input_file, "a.tim");
    assert_eq!(c.output_file.as_deref(), Some("out.html"));
    assert_eq!(c.wrap_tag.as_deref(), Some("main"));
    let c = config(&["tim", "--output-file", "o", "--wrap", "article", "a.tim"]);
    assert_eq!(c.output_file.as_deref(), Some("o"));
    assert_eq!(c.wrap_tag.as_deref(), Some("article"));
}

#[test]
fn dry_run_has_no_output_file() {
    let c = config(&["tim", "a.tim", "--dry-run", "-o", "x"]);
    assert!(c.dry_run);
    assert_eq!(c.output_file, None);
}

#[test]
fn last_input_file_wins() {
    let c = config(&["tim", "a.tim", "b.tim"]);
    assert_eq!(c.input_file, "b.tim");
}

#[test]
fn help_and_version_win() {
    assert!(matches!(run(&["tim", "a.tim", "-h"]), CliAction::Help));
    assert!(matches!(run(&["tim", "--help", "--bogus"]), CliAction::Help));
    assert!(matches!(run(&["tim", "--version", "x"]), CliAction::Version));
}

#[test]
fn errors() {
    assert_eq!(error(&["tim"]), CliError::NoInputProvided);
    assert_eq!(error(&["tim", "a.tim", "-o"]), CliError::MissingOutputValue);
    assert_eq!(error(&["tim", "a.tim", "--wrap"]), CliError::MissingWrapValue);
    assert_eq!(error(&["tim", "a.tim", "--bogus"]), CliError::UnknownFlag(2));
    assert_eq!(error(&["tim", "--dry-run"]), CliError::NoInputSpecified);
    assert_eq!(error(&["tim", "notes.md"]), CliError::NotTimFile(1));
    assert_eq!(error(&["tim", "tim"]), CliError::NotTimFile(1));
}

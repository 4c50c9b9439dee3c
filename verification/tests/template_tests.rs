use tim::compile::{compile_source, wrap_in_tag};
use tim::template::{TemplateEngine, PAGE_TEMPLATE};

#[test]
fn full_page_holds_title_and_body() {
    let page = TemplateEngine::wrap_to_full_page("Compiled Document", "<p>x</p>\n");
    let expected = PAGE_TEMPLATE
        .replace("{title}", "Compiled Document")
        .replace("{body_content}", "<p>x</p>\n");
    assert_eq!(page, expected);
    assert!(page.starts_with("<!DOCTYPE html>\n<html lang=\"en\">\n"));
    assert!(page.contains("    <title>Compiled Document</title>\n"));
    assert!(page.contains("<body>\n    <p>x</p>\n\n</body>\n</html>"));
    assert!(page.contains("body { font-family: sans-serif;"));
}

#[test]
fn title_is_inserted_before_body_is() {
    let page = TemplateEngine::wrap_to_full_page("{body_content}", "B");
    assert!(page.contains("<title>B</title>"));
}

#[test]
fn wrap_in_custom_tag() {
    assert_eq!(wrap_in_tag("main", "<p>x</p>\n"), "<main>\n<p>x</p>\n</main>");
}

#[test]
fn compile_source_end_to_end() {
    assert_eq!(compile_source("# Hi".to_string()).unwrap(), "<h1>Hi</h1>\n");
    assert!(compile_source("*x".to_string()).is_err());
}

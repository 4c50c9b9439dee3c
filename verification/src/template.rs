use vstd::prelude::*;
use crate::text::{replace_all, replace_str};

verus! {

/// The full HTML5 page that a compiled body is placed in.
pub const PAGE_TEMPLATE: &'static str = "<!DOCTYPE html>\n<html lang=\"en\">\n<head>\n    <meta charset=\"UTF-8\">\n    <meta name=\"viewport\" content=\"width=device-width, initial-scale=1.0\">\n    <title>{title}</title>\n    <style>\n        body { font-family: sans-serif; line-height: 1.6; max-width: 800px; margin: 40px auto; padding: 0 20px; color: #333; }\n        pre { background: #f4f4f4; padding: 15px; border-radius: 5px; overflow-x: auto; }\n        code { font-family: monospace; background: #f4f4f4; padding: 2px 4px; border-radius: 3px; }\n        pre code { padding: 0; background: none; }\n        .tim-note { border-left: 4px solid #0076ff; background: #f0f7ff; padding: 15px; margin: 20px 0; border-radius: 0 5px 5px 0; }\n    </style>\n</head>\n<body>\n    {body_content}\n</body>\n</html>";

/// Fills the page template.
pub struct TemplateEngine;

impl TemplateEngine {
    /// The page template with every `{title}` replaced by `title`, and then
    /// every `{body_content}` replaced by `body_content`.
    pub fn wrap_to_full_page(title: &str, body_content: &str) -> (r: String)
        ensures
            r@ == replace_all(
                replace_all(PAGE_TEMPLATE@, "{title}"@, title@),
                "{body_content}"@,
                body_content@,
            ),
    {
        proof {
            reveal_strlit("{title}");
            reveal_strlit("{body_content}");
        }
        let with_title = replace_str(PAGE_TEMPLATE, "{title}", title);
        replace_str(with_title.as_str(), "{body_content}", body_content)
    }
}

} // verus!

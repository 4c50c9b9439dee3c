use vstd::prelude::*;
use crate::parser::{Parser, initial_state};
use crate::parser_spec::{ParseError, spec_parse};
use crate::source_map::SourceMap;
use crate::tokenizer::{TokenList, lex};
use crate::walker::{Compiler, document_html};

verus! {

/// The HTML of a source text, or why its tokens are not a document: the
/// tokenizer, the parser and the tree walker one after another.
pub open spec fn source_html(source: Seq<char>) -> Result<Seq<char>, ParseError> {
    match spec_parse(lex(source, 0).0, initial_state(source)) {
        Ok((_st, doc)) => Ok(document_html(doc)),
        Err(e) => Err(e),
    }
}

/// Compiles a source text to HTML.
pub fn compile_source(source: String) -> (r: Result<String, ParseError>)
    ensures
        match source_html(source@) {
            Ok(h) => r matches Ok(s) && s@ == h,
            Err(e) => r matches Err(e2) && e2 == e,
        },
{
    let source_map = SourceMap::new(source);
    let mut lexer = TokenList::new();
    lexer.tokenize(&source_map);
    proof {
        assert(crate::tokens::tokens_view(lexer.tokens@) =~= lex(source_map.source@, 0).0);
    }
    let mut parser = Parser::new(lexer.tokens, source_map.source.as_str());
    let doc = match parser.parse() {
        Ok(d) => d,
        Err(e) => {
            return Err(e);
        },
    };
    let compiler = Compiler::new();
    Ok(compiler.compile(doc))
}

/// The compiled body wrapped in a custom HTML tag.
pub fn wrap_in_tag(tag: &str, body: &str) -> (r: String)
    ensures
        r@ == "<"@ + tag@ + ">\n"@ + body@ + "</"@ + tag@ + ">"@,
{
    let mut s = String::new();
    s.append("<");
    s.append(tag);
    s.append(">\n");
    s.append(body);
    s.append("</");
    s.append(tag);
    s.append(">");
    s
}

} // verus!

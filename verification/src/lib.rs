pub mod ast;
pub mod cli;
pub mod code_text;
pub mod compile;
pub mod diagnostics;
pub mod joined;
pub mod laws;
pub mod parser;
pub mod parser_spec;
pub mod progress;
pub mod source_map;
pub mod span;
pub mod syntax_laws;
pub mod template;
pub mod text;
pub mod tokenizer;
pub mod tokens;
pub mod walker;

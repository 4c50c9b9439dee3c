use vstd::prelude::*;
use crate::span::{HasSpan, Span};

verus! {

/// What a character starts in the tokenizer.
#[derive(Debug, Clone, Copy, PartialEq, Eq, Structural)]
pub enum CharType {
    Escape,
    WhiteSpace,
    NewLine,
    Letter,
    Digit,
    Symbol,
    Special,
    Unknown,
}

/// The class of each character.
pub open spec fn char_type(c: char) -> CharType {
    if ('a' <= c && c <= 'z') || ('A' <= c && c <= 'Z') {
        CharType::Letter
    } else if '0' <= c && c <= '9' {
        CharType::Digit
    } else if c == '\n' || c == '\r' {
        CharType::NewLine
    } else if c == '\t' || c == ' ' {
        CharType::WhiteSpace
    } else if c == '#' || c == '[' || c == ']' || c == '(' || c == ')' || c == '<' || c == '>' || c
        == '{' || c == '}' {
        CharType::Special
    } else if c == '!' || c == '@' || c == '$' || c == '%' || c == '^' || c == '&' || c == '*' || c
        == '-' || c == '_' || c == '`' || c == '\'' || c == '"' || c == '/' || c == '|' || c == ','
        || c == '.' || c == ':' || c == '?' {
        CharType::Symbol
    } else if c == '\\' {
        CharType::Escape
    } else {
        CharType::Unknown
    }
}

impl CharType {
    pub fn classify_char(c: char) -> (r: CharType)
        ensures
            r == char_type(c),
    {
        if ('a' <= c && c <= 'z') || ('A' <= c && c <= 'Z') {
            CharType::Letter
        } else if '0' <= c && c <= '9' {
            CharType::Digit
        } else if c == '\n' || c == '\r' {
            CharType::NewLine
        } else if c == '\t' || c == ' ' {
            CharType::WhiteSpace
        } else if c == '#' || c == '[' || c == ']' || c == '(' || c == ')' || c == '<' || c == '>'
            || c == '{' || c == '}' {
            CharType::Special
        } else if c == '!' || c == '@' || c == '$' || c == '%' || c == '^' || c == '&' || c == '*'
            || c == '-' || c == '_' || c == '`' || c == '\'' || c == '"' || c == '/' || c == '|'
            || c == ',' || c == '.' || c == ':' || c == '?' {
            CharType::Symbol
        } else if c == '\\' {
            CharType::Escape
        } else {
            CharType::Unknown
        }
    }
}

#[derive(Debug, Clone, Copy, PartialEq, Eq, Structural)]
pub enum TokenTypes {
    Error,
    NewLine,
    WhiteSpace,
    Escape,
    Text,
    Colon,
    At,
    Header,
    BackTick,
    AnchorURLStart,
    AnchorURLEnd,
    AnchorValueStart,
    AnchorValueEnd,
    Emphasis,
    OrderedList,
    Dash,
    UnderScore,
    Image,
    UniqueIDBegin,
    UniqueIDEnd,
    ClassBegin,
    ClassEnd,
}

#[derive(Debug)]
pub struct Token {
    pub token_type: TokenTypes,
    pub value: Option<String>,
    pub span: Span,
}

/// The mathematical value of a [`Token`].
#[verifier::ext_equal]
pub struct SpecToken {
    pub kind: TokenTypes,
    pub value: Option<Seq<char>>,
    pub span: Span,
}

impl View for Token {
    type V = SpecToken;

    open spec fn view(&self) -> SpecToken {
        SpecToken {
            kind: self.token_type,
            value: match self.value {
                Some(s) => Some(s@),
                None => None,
            },
            span: self.span,
        }
    }
}

pub open spec fn tokens_view(s: Seq<Token>) -> Seq<SpecToken> {
    Seq::new(s.len(), |i: int| s[i]@)
}

impl Token {
    pub fn new(token_type: TokenTypes, value: Option<String>, span: Span) -> (t: Token)
        ensures
            t.token_type == token_type,
            t.value == value,
            t.span == span,
    {
        Token { token_type, value, span }
    }
}

impl HasSpan for Token {
    fn span(&self) -> (s: Span)
        ensures
            s == self.span,
    {
        self.span
    }
}

} // verus!

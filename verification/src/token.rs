//! The token data model: a closed set of token kinds, an optional literal
//! payload, and the 1-based source line on which the token began.
//!
//! Number tokens carry the accumulated literal text (a maximal run of
//! decimal digits, optionally followed by one `.` and further digits);
//! turning that text into a machine float is left to unverified callers,
//! since the accumulation grammar guarantees the text is a valid decimal
//! form.

use vstd::prelude::*;

verus! {

/// The closed enumeration of token kinds.
#[derive(Debug, Clone, Copy, PartialEq, Eq, Structural)]
pub enum TokenType {
    // Single-character tokens.
    LeftParen,
    RightParen,
    LeftBrace,
    RightBrace,
    Comma,
    Dot,
    Minus,
    Plus,
    Semicolon,
    Slash,
    Star,
    // One or two character tokens.
    Bang,
    BangEqual,
    Equal,
    EqualEqual,
    Greater,
    GreaterEqual,
    Less,
    LessEqual,
    // Literals.
    Identifier,
    String,
    Number,
    // Keywords.
    And,
    Class,
    Else,
    False,
    Fun,
    For,
    If,
    Nil,
    Or,
    Print,
    Return,
    Super,
    This,
    True,
    Var,
    While,
    // The end-of-input marker.
    Eof,
}

/// The literal payload of an Identifier, String or Number token.
///
/// A Number payload holds the literal's text rather than a parsed float:
/// the accumulation grammar only ever produces syntactically valid decimal
/// forms, so the conversion is infallible and purely a representation
/// choice of the (unverified) consumer.
#[derive(Debug, Clone, PartialEq)]
pub enum TokenValue {
    String(String),
    Number(String),
}

/// One classified unit of lexical input.
#[derive(Debug, Clone, PartialEq)]
pub struct Token {
    pub token_type: TokenType,
    pub value: Option<TokenValue>,
    pub line: u32,
}

/// The mathematical model of a literal payload: a sequence of codepoints,
/// tagged with whether it spells a string literal or a number literal.
pub ghost enum SpecTokenValue {
    Str(Seq<char>),
    Num(Seq<char>),
}

/// The mathematical model of a token.
pub ghost struct SpecToken {
    pub token_type: TokenType,
    pub value: Option<SpecTokenValue>,
    pub line: u32,
}

impl View for TokenValue {
    type V = SpecTokenValue;

    open spec fn view(&self) -> SpecTokenValue {
        match self {
            TokenValue::String(s) => SpecTokenValue::Str(s@),
            TokenValue::Number(s) => SpecTokenValue::Num(s@),
        }
    }
}

impl View for Token {
    type V = SpecToken;

    open spec fn view(&self) -> SpecToken {
        SpecToken {
            token_type: self.token_type,
            value: match self.value {
                Some(v) => Some(v@),
                None => None,
            },
            line: self.line,
        }
    }
}

/// The model of a payload-free token.
pub open spec fn spec_plain_token(token_type: TokenType, line: u32) -> SpecToken {
    SpecToken { token_type, value: None, line }
}

/// The models of a sequence of tokens, in order.
pub open spec fn token_views(ts: Seq<Token>) -> Seq<SpecToken> {
    ts.map_values(|t: Token| t@)
}

impl Token {
    /// Makes a token that carries no literal payload.
    pub fn create(token_type: TokenType, line: u32) -> (r: Token)
        ensures
            r@ == spec_plain_token(token_type, line),
    {
        Token { token_type, value: None, line }
    }

    /// Makes a token that carries text as its literal payload.
    pub fn create_with_string(token_type: TokenType, line: u32, value: String) -> (r: Token)
        ensures
            r@ == (SpecToken {
                token_type,
                value: Some(SpecTokenValue::Str(value@)),
                line,
            }),
    {
        Token { token_type, value: Some(TokenValue::String(value)), line }
    }

    /// Makes a token that carries the text of a number literal as its
    /// payload.
    pub fn create_with_number(token_type: TokenType, line: u32, value: String) -> (r: Token)
        ensures
            r@ == (SpecToken {
                token_type,
                value: Some(SpecTokenValue::Num(value@)),
                line,
            }),
    {
        Token { token_type, value: Some(TokenValue::Number(value)), line }
    }
}

} // verus!

//! Tokens produced by the scanner, their mathematical models, and the
//! keyword table that reclassifies identifiers.

use vstd::prelude::*;

use crate::text::str_eq;

verus! {

/// The closed set of token classes.
///
/// A float literal is carried as plain values: the value of its integer
/// part, the value of its fraction digits, and how many fraction digits the
/// lexeme holds (so `17.09` is `FLOAT { int_part: 17, frac_part: 9,
/// frac_digits: 2 }`).
#[derive(Debug, Clone, PartialEq, Eq)]
pub enum TokenKind {
    EOF,
    UNKNOWN(),
    // single character tokens
    PLUS,
    MINUS,
    COMMA,
    SEMICOLON,
    SLASH,
    ASTERISK,
    DOT,
    // one or two
    MOD,
    OPENPAREN,
    CLOSEPAREN,
    RIGHTBRACE,
    LEFTBRACE,
    BANG,
    BANGEQUAL,
    EQUAL,
    LESSTHAN,
    GREATERTHAN,
    LESSTHANEQUAL,
    GREATERTHANEQUAL,
    EXPONENT,
    // literals
    IDENTIFIER(String),
    INTEGER(usize),
    FLOAT { int_part: usize, frac_part: usize, frac_digits: usize },
    STRING(String),
    // keywords
    AND,
    OR,
    FUN,
    FOR,
    IF,
    ELSE,
    TRUE,
    FALSE,
    NIL,
    RETURN,
    VAR,
    WHILE,
    CLASS,
    SUPER,
    THIS,
    PRINT,
}

/// The model of a token class: the same variants over mathematical values.
pub enum SpecTokenKind {
    EOF,
    UNKNOWN,
    PLUS,
    MINUS,
    COMMA,
    SEMICOLON,
    SLASH,
    ASTERISK,
    DOT,
    MOD,
    OPENPAREN,
    CLOSEPAREN,
    RIGHTBRACE,
    LEFTBRACE,
    BANG,
    BANGEQUAL,
    EQUAL,
    LESSTHAN,
    GREATERTHAN,
    LESSTHANEQUAL,
    GREATERTHANEQUAL,
    EXPONENT,
    IDENTIFIER(Seq<char>),
    INTEGER(nat),
    FLOAT { int_part: nat, frac_part: nat, frac_digits: nat },
    STRING(Seq<char>),
    AND,
    OR,
    FUN,
    FOR,
    IF,
    ELSE,
    TRUE,
    FALSE,
    NIL,
    RETURN,
    VAR,
    WHILE,
    CLASS,
    SUPER,
    THIS,
    PRINT,
}

impl DeepView for TokenKind {
    type V = SpecTokenKind;

    open spec fn deep_view(&self) -> SpecTokenKind {
        match self {
            TokenKind::EOF => SpecTokenKind::EOF,
            TokenKind::UNKNOWN() => SpecTokenKind::UNKNOWN,
            TokenKind::PLUS => SpecTokenKind::PLUS,
            TokenKind::MINUS => SpecTokenKind::MINUS,
            TokenKind::COMMA => SpecTokenKind::COMMA,
            TokenKind::SEMICOLON => SpecTokenKind::SEMICOLON,
            TokenKind::SLASH => SpecTokenKind::SLASH,
            TokenKind::ASTERISK => SpecTokenKind::ASTERISK,
            TokenKind::DOT => SpecTokenKind::DOT,
            TokenKind::MOD => SpecTokenKind::MOD,
            TokenKind::OPENPAREN => SpecTokenKind::OPENPAREN,
            TokenKind::CLOSEPAREN => SpecTokenKind::CLOSEPAREN,
            TokenKind::RIGHTBRACE => SpecTokenKind::RIGHTBRACE,
            TokenKind::LEFTBRACE => SpecTokenKind::LEFTBRACE,
            TokenKind::BANG => SpecTokenKind::BANG,
            TokenKind::BANGEQUAL => SpecTokenKind::BANGEQUAL,
            TokenKind::EQUAL => SpecTokenKind::EQUAL,
            TokenKind::LESSTHAN => SpecTokenKind::LESSTHAN,
            TokenKind::GREATERTHAN => SpecTokenKind::GREATERTHAN,
            TokenKind::LESSTHANEQUAL => SpecTokenKind::LESSTHANEQUAL,
            TokenKind::GREATERTHANEQUAL => SpecTokenKind::GREATERTHANEQUAL,
            TokenKind::EXPONENT => SpecTokenKind::EXPONENT,
            TokenKind::IDENTIFIER(name) => SpecTokenKind::IDENTIFIER(name@),
            TokenKind::INTEGER(v) => SpecTokenKind::INTEGER(*v as nat),
            TokenKind::FLOAT { int_part, frac_part, frac_digits } => (SpecTokenKind::FLOAT {
                int_part: *int_part as nat,
                frac_part: *frac_part as nat,
                frac_digits: *frac_digits as nat,
            }),
            TokenKind::STRING(s) => SpecTokenKind::STRING(s@),
            TokenKind::AND => SpecTokenKind::AND,
            TokenKind::OR => SpecTokenKind::OR,
            TokenKind::FUN => SpecTokenKind::FUN,
            TokenKind::FOR => SpecTokenKind::FOR,
            TokenKind::IF => SpecTokenKind::IF,
            TokenKind::ELSE => SpecTokenKind::ELSE,
            TokenKind::TRUE => SpecTokenKind::TRUE,
            TokenKind::FALSE => SpecTokenKind::FALSE,
            TokenKind::NIL => SpecTokenKind::NIL,
            TokenKind::RETURN => SpecTokenKind::RETURN,
            TokenKind::VAR => SpecTokenKind::VAR,
            TokenKind::WHILE => SpecTokenKind::WHILE,
            TokenKind::CLASS => SpecTokenKind::CLASS,
            TokenKind::SUPER => SpecTokenKind::SUPER,
            TokenKind::THIS => SpecTokenKind::THIS,
            TokenKind::PRINT => SpecTokenKind::PRINT,
        }
    }
}

/// A classified token.
///
/// `pos` is the character offset in the whole input where the lexeme begins
/// (for the end-of-input token: the final cursor position), `line` the
/// number of newlines consumed before that point, and `literal` the exact
/// source substring that produced the token (a string literal keeps its
/// quotes here; its decoded content sits in the kind).
#[derive(Debug, Clone, PartialEq, Eq)]
pub struct Token {
    pub pos: usize,
    pub kind: TokenKind,
    pub literal: String,
    pub line: usize,
}

/// The model of a token.
pub struct SpecToken {
    pub pos: nat,
    pub kind: SpecTokenKind,
    pub literal: Seq<char>,
    pub line: nat,
}

impl DeepView for Token {
    type V = SpecToken;

    open spec fn deep_view(&self) -> SpecToken {
        SpecToken {
            pos: self.pos as nat,
            kind: self.kind.deep_view(),
            literal: self.literal@,
            line: self.line as nat,
        }
    }
}

/// The keyword table: which reserved spellings reclassify an identifier,
/// and to which kind.
pub open spec fn spec_keyword(name: Seq<char>) -> Option<SpecTokenKind> {
    if name == "and"@ {
        Some(SpecTokenKind::AND)
    } else if name == "or"@ {
        Some(SpecTokenKind::OR)
    } else if name == "fun"@ {
        Some(SpecTokenKind::FUN)
    } else if name == "for"@ {
        Some(SpecTokenKind::FOR)
    } else if name == "if"@ {
        Some(SpecTokenKind::IF)
    } else if name == "else"@ {
        Some(SpecTokenKind::ELSE)
    } else if name == "true"@ {
        Some(SpecTokenKind::TRUE)
    } else if name == "false"@ {
        Some(SpecTokenKind::FALSE)
    } else if name == "nil"@ {
        Some(SpecTokenKind::NIL)
    } else if name == "return"@ {
        Some(SpecTokenKind::RETURN)
    } else if name == "var"@ {
        Some(SpecTokenKind::VAR)
    } else if name == "while"@ {
        Some(SpecTokenKind::WHILE)
    } else if name == "class"@ {
        Some(SpecTokenKind::CLASS)
    } else if name == "super"@ {
        Some(SpecTokenKind::SUPER)
    } else if name == "this"@ {
        Some(SpecTokenKind::THIS)
    } else if name == "print"@ {
        Some(SpecTokenKind::PRINT)
    } else {
        None
    }
}

/// Looks the collected identifier name up in the keyword table.
pub fn keyword_lookup(name: &str) -> (k: Option<TokenKind>)
    ensures
        k.deep_view() == spec_keyword(name@),
{
    if str_eq(name, "and") {
        Some(TokenKind::AND)
    } else if str_eq(name, "or") {
        Some(TokenKind::OR)
    } else if str_eq(name, "fun") {
        Some(TokenKind::FUN)
    } else if str_eq(name, "for") {
        Some(TokenKind::FOR)
    } else if str_eq(name, "if") {
        Some(TokenKind::IF)
    } else if str_eq(name, "else") {
        Some(TokenKind::ELSE)
    } else if str_eq(name, "true") {
        Some(TokenKind::TRUE)
    } else if str_eq(name, "false") {
        Some(TokenKind::FALSE)
    } else if str_eq(name, "nil") {
        Some(TokenKind::NIL)
    } else if str_eq(name, "return") {
        Some(TokenKind::RETURN)
    } else if str_eq(name, "var") {
        Some(TokenKind::VAR)
    } else if str_eq(name, "while") {
        Some(TokenKind::WHILE)
    } else if str_eq(name, "class") {
        Some(TokenKind::CLASS)
    } else if str_eq(name, "super") {
        Some(TokenKind::SUPER)
    } else if str_eq(name, "this") {
        Some(TokenKind::THIS)
    } else if str_eq(name, "print") {
        Some(TokenKind::PRINT)
    } else {
        None
    }
}

} // verus!

//! A tree-walking interpreter for a small, dynamically typed, C-like
//! scripting language: a scanner turning source text into tokens, a
//! recursive-descent parser building an abstract syntax tree, and an
//! evaluator walking that tree against a chain of lexically scoped
//! variable environments.

use vstd::prelude::*;

pub mod ast;
pub mod environ;
pub mod interp;
pub mod numeric;
pub mod parse;
pub mod roundtrip;
pub mod tokenize;

verus! {

pub type Filename = String;

pub type Source = String;

/// Everything that can go wrong while scanning, parsing or evaluating.
/// Scanning and parsing errors carry the offending source line.
#[derive(PartialEq, Debug)]
pub enum LoxError {
    /// An unrecognized character (or an unterminated string literal).
    LexError { ch: char, line: i32 },
    /// A token did not match what the grammar required at that point.
    SyntaxError { message: String, line: i32 },
    /// An operator was applied to operand types it does not support.
    TypeMismatch,
    /// A lookup or assignment named a variable never declared in any
    /// enclosing scope.
    UndefinedVariable { name: String },
    /// The left-hand side of `=` was not a bare variable name.
    InvalidAssignmentTarget,
}

/// The mathematical model of a `LoxError`.
#[verifier::ext_equal]
pub enum ErrorModel {
    LexE { ch: char, line: int },
    SynE { message: Seq<char>, line: int },
    TypeE,
    UndefE { name: Seq<char> },
    TargetE,
}

impl View for LoxError {
    type V = ErrorModel;

    open spec fn view(&self) -> ErrorModel {
        match self {
            LoxError::LexError { ch, line } => ErrorModel::LexE {
                ch: *ch,
                line: *line as int,
            },
            LoxError::SyntaxError { message, line } => ErrorModel::SynE {
                message: message@,
                line: *line as int,
            },
            LoxError::TypeMismatch => ErrorModel::TypeE,
            LoxError::UndefinedVariable { name } => ErrorModel::UndefE { name: name@ },
            LoxError::InvalidAssignmentTarget => ErrorModel::TargetE,
        }
    }
}

/// The closed alphabet of lexical units.
#[derive(PartialEq, Eq, Structural, Debug, Clone, Copy)]
pub enum TokenType {
    // Symbols
    LPAREN,
    RPAREN,
    LBRACE,
    RBRACE,
    COMMA,
    DOT,
    MINUS,
    PLUS,
    SEMICOLON,
    SLASH,
    STAR,
    BANG,
    ASSIGN,
    NE,
    EQ,
    GT,
    GE,
    LT,
    LE,
    // Literals
    IDENTIFIER,
    STRING,
    NUMBER,
    // Keywords
    AND,
    CLASS,
    ELSE,
    FALSE,
    FUN,
    FOR,
    IF,
    NIL,
    OR,
    PRINT,
    RETURN,
    SUPER,
    THIS,
    TRUE,
    VAR,
    WHILE,
    // Spacing between tokens; produced by the raw scan, dropped by `tokenize`
    WHITESPACE,
    COMMENT,
    EOF,
}

/// The mathematical model of a token: kind, lexeme characters, line.
#[verifier::ext_equal]
pub struct TokenModel {
    pub toktype: TokenType,
    pub lexeme: Seq<char>,
    pub line: int,
}

/// A classified, positioned lexical unit produced by scanning.
#[derive(PartialEq, Debug)]
pub struct Token {
    pub toktype: TokenType,
    pub lexeme: String,
    pub line: i32,
}

impl View for Token {
    type V = TokenModel;

    open spec fn view(&self) -> TokenModel {
        TokenModel { toktype: self.toktype, lexeme: self.lexeme@, line: self.line as int }
    }
}

impl Token {
    pub fn new(toktype: TokenType, lexeme: &str, line: i32) -> (t: Token)
        ensures
            t@ == (TokenModel { toktype, lexeme: lexeme@, line: line as int }),
    {
        Token { toktype, lexeme: lexeme.to_owned(), line }
    }
}

pub type Tokens = Vec<Token>;

} // verus!

//! Lexical tokens and their mathematical values.

use vstd::prelude::*;
use vstd::string::StringExecFns;

verus! {

/// A lexical token of the language: literal categories carrying their raw
/// text, fixed keywords and symbols, and the end-of-input marker. A token
/// that the lexer cannot classify is carried as `Illegal` with its text.
pub enum Token {
    Ident(String),
    Int(String),
    Illegal(String),
    Let,
    Return,
    True,
    False,
    Assign,
    Bang,
    Minus,
    Plus,
    Slash,
    Asterisk,
    Eq,
    NotEq,
    Lt,
    Gt,
    LParen,
    RParen,
    Semicolon,
    Eof,
}

/// The mathematical value of a token: the same tags, with the string
/// payloads abstracted to character sequences.
pub enum TokenV {
    Ident(Seq<char>),
    Int(Seq<char>),
    Illegal(Seq<char>),
    Let,
    Return,
    True,
    False,
    Assign,
    Bang,
    Minus,
    Plus,
    Slash,
    Asterisk,
    Eq,
    NotEq,
    Lt,
    Gt,
    LParen,
    RParen,
    Semicolon,
    Eof,
}

impl View for Token {
    type V = TokenV;

    open spec fn view(&self) -> TokenV {
        match self {
            Token::Ident(s) => TokenV::Ident(s@),
            Token::Int(s) => TokenV::Int(s@),
            Token::Illegal(s) => TokenV::Illegal(s@),
            Token::Let => TokenV::Let,
            Token::Return => TokenV::Return,
            Token::True => TokenV::True,
            Token::False => TokenV::False,
            Token::Assign => TokenV::Assign,
            Token::Bang => TokenV::Bang,
            Token::Minus => TokenV::Minus,
            Token::Plus => TokenV::Plus,
            Token::Slash => TokenV::Slash,
            Token::Asterisk => TokenV::Asterisk,
            Token::Eq => TokenV::Eq,
            Token::NotEq => TokenV::NotEq,
            Token::Lt => TokenV::Lt,
            Token::Gt => TokenV::Gt,
            Token::LParen => TokenV::LParen,
            Token::RParen => TokenV::RParen,
            Token::Semicolon => TokenV::Semicolon,
            Token::Eof => TokenV::Eof,
        }
    }
}

/// The name of a token's tag, as it appears in diagnostics.
pub open spec fn tok_name(t: TokenV) -> Seq<char> {
    match t {
        TokenV::Ident(_) => "Ident"@,
        TokenV::Int(_) => "Int"@,
        TokenV::Illegal(_) => "Illegal"@,
        TokenV::Let => "Let"@,
        TokenV::Return => "Return"@,
        TokenV::True => "True"@,
        TokenV::False => "False"@,
        TokenV::Assign => "Assign"@,
        TokenV::Bang => "Bang"@,
        TokenV::Minus => "Minus"@,
        TokenV::Plus => "Plus"@,
        TokenV::Slash => "Slash"@,
        TokenV::Asterisk => "Asterisk"@,
        TokenV::Eq => "Eq"@,
        TokenV::NotEq => "NotEq"@,
        TokenV::Lt => "Lt"@,
        TokenV::Gt => "Gt"@,
        TokenV::LParen => "LParen"@,
        TokenV::RParen => "RParen"@,
        TokenV::Semicolon => "Semicolon"@,
        TokenV::Eof => "Eof"@,
    }
}

/// A token rendered for a diagnostic: the tag name, and for the literal
/// categories the carried text in parentheses.
pub open spec fn tok_desc(t: TokenV) -> Seq<char> {
    match t {
        TokenV::Ident(s) => "Ident("@ + s + ")"@,
        TokenV::Int(s) => "Int("@ + s + ")"@,
        TokenV::Illegal(s) => "Illegal("@ + s + ")"@,
        _ => tok_name(t),
    }
}

impl Token {
    /// Tag name of this token, as a borrowed string.
    pub fn name(&self) -> (r: &'static str)
        ensures
            r@ == tok_name(self@),
    {
        match self {
            Token::Ident(_) => "Ident",
            Token::Int(_) => "Int",
            Token::Illegal(_) => "Illegal",
            Token::Let => "Let",
            Token::Return => "Return",
            Token::True => "True",
            Token::False => "False",
            Token::Assign => "Assign",
            Token::Bang => "Bang",
            Token::Minus => "Minus",
            Token::Plus => "Plus",
            Token::Slash => "Slash",
            Token::Asterisk => "Asterisk",
            Token::Eq => "Eq",
            Token::NotEq => "NotEq",
            Token::Lt => "Lt",
            Token::Gt => "Gt",
            Token::LParen => "LParen",
            Token::RParen => "RParen",
            Token::Semicolon => "Semicolon",
            Token::Eof => "Eof",
        }
    }

    /// Renders this token for a diagnostic message.
    pub fn describe(&self) -> (r: String)
        ensures
            r@ == tok_desc(self@),
    {
        match self {
            Token::Ident(s) => {
                let mut r = "Ident(".to_owned();
                r.append(s.as_str());
                r.append(")");
                r
            },
            Token::Int(s) => {
                let mut r = "Int(".to_owned();
                r.append(s.as_str());
                r.append(")");
                r
            },
            Token::Illegal(s) => {
                let mut r = "Illegal(".to_owned();
                r.append(s.as_str());
                r.append(")");
                r
            },
            _ => self.name().to_owned(),
        }
    }

    /// Value equality on tag and payload.
    pub fn same_as(&self, other: &Token) -> (r: bool)
        ensures
            r == (self@ == other@),
    {
        match (self, other) {
            (Token::Ident(a), Token::Ident(b)) => *a == *b,
            (Token::Int(a), Token::Int(b)) => *a == *b,
            (Token::Illegal(a), Token::Illegal(b)) => *a == *b,
            (Token::Let, Token::Let) => true,
            (Token::Return, Token::Return) => true,
            (Token::True, Token::True) => true,
            (Token::False, Token::False) => true,
            (Token::Assign, Token::Assign) => true,
            (Token::Bang, Token::Bang) => true,
            (Token::Minus, Token::Minus) => true,
            (Token::Plus, Token::Plus) => true,
            (Token::Slash, Token::Slash) => true,
            (Token::Asterisk, Token::Asterisk) => true,
            (Token::Eq, Token::Eq) => true,
            (Token::NotEq, Token::NotEq) => true,
            (Token::Lt, Token::Lt) => true,
            (Token::Gt, Token::Gt) => true,
            (Token::LParen, Token::LParen) => true,
            (Token::RParen, Token::RParen) => true,
            (Token::Semicolon, Token::Semicolon) => true,
            (Token::Eof, Token::Eof) => true,
            _ => false,
        }
    }

    /// A copy of this token with the same tag and payload.
    pub fn duplicate(&self) -> (r: Token)
        ensures
            r@ == self@,
    {
        match self {
            Token::Ident(s) => Token::Ident(s.clone()),
            Token::Int(s) => Token::Int(s.clone()),
            Token::Illegal(s) => Token::Illegal(s.clone()),
            Token::Let => Token::Let,
            Token::Return => Token::Return,
            Token::True => Token::True,
            Token::False => Token::False,
            Token::Assign => Token::Assign,
            Token::Bang => Token::Bang,
            Token::Minus => Token::Minus,
            Token::Plus => Token::Plus,
            Token::Slash => Token::Slash,
            Token::Asterisk => Token::Asterisk,
            Token::Eq => Token::Eq,
            Token::NotEq => Token::NotEq,
            Token::Lt => Token::Lt,
            Token::Gt => Token::Gt,
            Token::LParen => Token::LParen,
            Token::RParen => Token::RParen,
            Token::Semicolon => Token::Semicolon,
            Token::Eof => Token::Eof,
        }
    }
}

} // verus!

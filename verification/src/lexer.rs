//! The token source: converts source text into a stream of typed tokens,
//! pulled one at a time. Once the end of the input is reached it keeps
//! returning the end-of-input token.
//!
//! The lexer's behaviour is pinned down by a mathematical model:
//! `spec_next_token` gives the token formed at a position of the text and
//! the position just past it, and `spec_tokens` gives the whole stream up
//! to and including the end-of-input token. `next_token` returns exactly
//! what the model says.

use vstd::prelude::*;
use vstd::string::StrSliceExecFns;
use crate::token::Token;
use crate::token::TokenV;

verus! {

/// Whitespace between tokens.
pub open spec fn is_ws(c: char) -> bool {
    c == ' ' || c == '\t' || c == '\n' || c == '\r'
}

/// Characters that may form an identifier or keyword.
pub open spec fn is_letter(c: char) -> bool {
    ('a' <= c && c <= 'z') || ('A' <= c && c <= 'Z') || c == '_'
}

/// Decimal digit characters.
pub open spec fn is_digit(c: char) -> bool {
    '0' <= c && c <= '9'
}

fn ws_char(c: char) -> (b: bool)
    ensures
        b == is_ws(c),
{
    c == ' ' || c == '\t' || c == '\n' || c == '\r'
}

fn letter_char(c: char) -> (b: bool)
    ensures
        b == is_letter(c),
{
    ('a' <= c && c <= 'z') || ('A' <= c && c <= 'Z') || c == '_'
}

fn digit_char(c: char) -> (b: bool)
    ensures
        b == is_digit(c),
{
    '0' <= c && c <= '9'
}

/// The first position at or after `pos` whose character is not
/// whitespace, or the end of the text.
pub open spec fn ws_end(s: Seq<char>, pos: int) -> int
    decreases s.len() - pos,
    when 0 <= pos <= s.len()
{
    if pos == s.len() || !is_ws(s[pos]) {
        pos
    } else {
        ws_end(s, pos + 1)
    }
}

/// The first position at or after `pos` whose character cannot continue
/// an identifier, or the end of the text.
pub open spec fn word_end(s: Seq<char>, pos: int) -> int
    decreases s.len() - pos,
    when 0 <= pos <= s.len()
{
    if pos == s.len() || !is_letter(s[pos]) {
        pos
    } else {
        word_end(s, pos + 1)
    }
}

/// The first position at or after `pos` whose character is not a digit,
/// or the end of the text.
pub open spec fn number_end(s: Seq<char>, pos: int) -> int
    decreases s.len() - pos,
    when 0 <= pos <= s.len()
{
    if pos == s.len() || !is_digit(s[pos]) {
        pos
    } else {
        number_end(s, pos + 1)
    }
}

/// A whitespace scan stays within the text and never moves backwards.
pub proof fn lemma_ws_end_range(s: Seq<char>, pos: int)
    requires
        0 <= pos <= s.len(),
    ensures
        pos <= ws_end(s, pos) <= s.len(),
    decreases s.len() - pos,
{
    if !(pos == s.len() || !is_ws(s[pos])) {
        lemma_ws_end_range(s, pos + 1);
    }
}

/// An identifier scan stays within the text and never moves backwards.
pub proof fn lemma_word_end_range(s: Seq<char>, pos: int)
    requires
        0 <= pos <= s.len(),
    ensures
        pos <= word_end(s, pos) <= s.len(),
    decreases s.len() - pos,
{
    if !(pos == s.len() || !is_letter(s[pos])) {
        lemma_word_end_range(s, pos + 1);
    }
}

/// A digit scan stays within the text and never moves backwards.
pub proof fn lemma_number_end_range(s: Seq<char>, pos: int)
    requires
        0 <= pos <= s.len(),
    ensures
        pos <= number_end(s, pos) <= s.len(),
    decreases s.len() - pos,
{
    if !(pos == s.len() || !is_digit(s[pos])) {
        lemma_number_end_range(s, pos + 1);
    }
}

/// The keyword token a word spells, or the identifier token carrying it.
pub open spec fn spec_lookup_word(w: Seq<char>) -> TokenV {
    if w == "let"@ {
        TokenV::Let
    } else if w == "return"@ {
        TokenV::Return
    } else if w == "true"@ {
        TokenV::True
    } else if w == "false"@ {
        TokenV::False
    } else {
        TokenV::Ident(w)
    }
}

/// One step of the lexer: the token formed at the first non-whitespace
/// position at or after `pos`, and the position just past that token.
pub open spec fn spec_next_token(s: Seq<char>, pos: int) -> (TokenV, int) {
    let p = ws_end(s, pos);
    if p >= s.len() {
        (TokenV::Eof, p)
    } else {
        let c = s[p];
        if c == '=' {
            if p + 1 < s.len() && s[p + 1] == '=' {
                (TokenV::Eq, p + 2)
            } else {
                (TokenV::Assign, p + 1)
            }
        } else if c == '!' {
            if p + 1 < s.len() && s[p + 1] == '=' {
                (TokenV::NotEq, p + 2)
            } else {
                (TokenV::Bang, p + 1)
            }
        } else if c == '+' {
            (TokenV::Plus, p + 1)
        } else if c == '-' {
            (TokenV::Minus, p + 1)
        } else if c == '*' {
            (TokenV::Asterisk, p + 1)
        } else if c == '/' {
            (TokenV::Slash, p + 1)
        } else if c == '<' {
            (TokenV::Lt, p + 1)
        } else if c == '>' {
            (TokenV::Gt, p + 1)
        } else if c == '(' {
            (TokenV::LParen, p + 1)
        } else if c == ')' {
            (TokenV::RParen, p + 1)
        } else if c == ';' {
            (TokenV::Semicolon, p + 1)
        } else if is_letter(c) {
            let e = word_end(s, p + 1);
            (spec_lookup_word(s.subrange(p, e)), e)
        } else if is_digit(c) {
            let e = number_end(s, p + 1);
            (TokenV::Int(s.subrange(p, e)), e)
        } else {
            (TokenV::Illegal(s.subrange(p, p + 1)), p + 1)
        }
    }
}

/// One lexer step stays within the text, and except at the end it
/// consumes at least one character.
pub proof fn lemma_next_token_range(s: Seq<char>, pos: int)
    requires
        0 <= pos <= s.len(),
    ensures
        ({
            let (t, np) = spec_next_token(s, pos);
            &&& pos <= np <= s.len()
            &&& t != TokenV::Eof ==> pos < np
        }),
{
    lemma_ws_end_range(s, pos);
    let p = ws_end(s, pos);
    if p < s.len() {
        let c = s[p];
        if is_letter(c) {
            lemma_word_end_range(s, p + 1);
        }
        if is_digit(c) {
            lemma_number_end_range(s, p + 1);
        }
    }
}

#[via_fn]
proof fn spec_tokens_decreases(s: Seq<char>, pos: int) {
    if 0 <= pos <= s.len() {
        lemma_next_token_range(s, pos);
    }
}

/// The whole token stream of the text from a position: every token in
/// order, ending with the end-of-input token.
pub open spec fn spec_tokens(s: Seq<char>, pos: int) -> Seq<TokenV>
    decreases s.len() - pos,
    when 0 <= pos <= s.len()
    via spec_tokens_decreases
{
    let step = spec_next_token(s, pos);
    if step.0 == TokenV::Eof {
        seq![TokenV::Eof]
    } else {
        seq![step.0] + spec_tokens(s, step.1)
    }
}

/// A stateful cursor over the source text. `next_token` classifies the
/// characters at the cursor, advances past them, and returns the token
/// they form.
pub struct Lexer {
    src: String,
    pos: usize,
}

impl Lexer {
    /// The characters of the source text.
    pub closed spec fn text(&self) -> Seq<char> {
        self.src@
    }

    /// The cursor's position in the text.
    pub closed spec fn cursor(&self) -> int {
        self.pos as int
    }

    /// The cursor never points past the end of the text.
    pub open spec fn wf(&self) -> bool {
        0 <= self.cursor() <= self.text().len()
    }

    /// How many characters are left before the cursor reaches the end.
    pub open spec fn remaining(&self) -> nat {
        if self.cursor() <= self.text().len() {
            (self.text().len() - self.cursor()) as nat
        } else {
            0
        }
    }

    /// A lexer at the start of the given source text.
    pub fn new(input: &str) -> (l: Lexer)
        ensures
            l.wf(),
            l.text() == input@,
            l.cursor() == 0,
    {
        Lexer { src: input.to_owned(), pos: 0 }
    }

    /// Advances past whitespace.
    fn skip_whitespace(&mut self)
        requires
            old(self).wf(),
        ensures
            final(self).wf(),
            final(self).src == old(self).src,
            final(self).pos as int == ws_end(old(self).src@, old(self).pos as int),
    {
        let n = self.src.as_str().unicode_len();
        while self.pos < n && ws_char(self.src.as_str().get_char(self.pos))
            invariant
                old(self).pos <= self.pos <= n,
                n == self.src@.len(),
                self.src == old(self).src,
                ws_end(self.src@, old(self).pos as int) == ws_end(self.src@, self.pos as int),
            decreases n - self.pos,
        {
            self.pos = self.pos + 1;
        }
    }

    /// Reads a run of identifier characters: the cursor stands on the
    /// first of them, and afterwards just past the last.
    fn read_identifier(&mut self) -> (w: String)
        requires
            old(self).wf(),
            old(self).pos < old(self).src@.len(),
        ensures
            final(self).wf(),
            final(self).src == old(self).src,
            final(self).pos as int == word_end(old(self).src@, old(self).pos + 1 as int),
            old(self).pos < final(self).pos,
            w@ == old(self).src@.subrange(old(self).pos as int, final(self).pos as int),
    {
        let n = self.src.as_str().unicode_len();
        let start = self.pos;
        self.pos = self.pos + 1;
        while self.pos < n && letter_char(self.src.as_str().get_char(self.pos))
            invariant
                start < self.pos <= n,
                n == self.src@.len(),
                self.src == old(self).src,
                word_end(self.src@, start + 1 as int) == word_end(self.src@, self.pos as int),
            decreases n - self.pos,
        {
            self.pos = self.pos + 1;
        }
        self.src.as_str().substring_char(start, self.pos).to_owned()
    }

    /// Reads a run of digit characters: the cursor stands on the first of
    /// them, and afterwards just past the last.
    fn read_number(&mut self) -> (w: String)
        requires
            old(self).wf(),
            old(self).pos < old(self).src@.len(),
        ensures
            final(self).wf(),
            final(self).src == old(self).src,
            final(self).pos as int == number_end(old(self).src@, old(self).pos + 1 as int),
            old(self).pos < final(self).pos,
            w@ == old(self).src@.subrange(old(self).pos as int, final(self).pos as int),
    {
        let n = self.src.as_str().unicode_len();
        let start = self.pos;
        self.pos = self.pos + 1;
        while self.pos < n && digit_char(self.src.as_str().get_char(self.pos))
            invariant
                start < self.pos <= n,
                n == self.src@.len(),
                self.src == old(self).src,
                number_end(self.src@, start + 1 as int) == number_end(self.src@, self.pos as int),
            decreases n - self.pos,
        {
            self.pos = self.pos + 1;
        }
        self.src.as_str().substring_char(start, self.pos).to_owned()
    }

    /// The keyword token for a word that is one, the identifier token
    /// otherwise.
    fn lookup_word(word: String) -> (t: Token)
        ensures
            t@ == spec_lookup_word(word@),
    {
        if word == "let".to_owned() {
            Token::Let
        } else if word == "return".to_owned() {
            Token::Return
        } else if word == "true".to_owned() {
            Token::True
        } else if word == "false".to_owned() {
            Token::False
        } else {
            Token::Ident(word)
        }
    }

    /// Produces the next token, exactly as the model says. At the end of
    /// the input it returns the end-of-input token, and keeps returning it
    /// on every later call; any other answer consumes at least one
    /// character, so a caller that pulls tokens until end-of-input always
    /// finishes.
    pub fn next_token(&mut self) -> (t: Token)
        requires
            old(self).wf(),
        ensures
            final(self).wf(),
            final(self).text() == old(self).text(),
            ({
                let step = spec_next_token(old(self).text(), old(self).cursor());
                &&& t@ == step.0
                &&& final(self).cursor() == step.1
            }),
            final(self).remaining() <= old(self).remaining(),
            !(t@ is Eof) ==> final(self).remaining() < old(self).remaining(),
    {
        proof {
            lemma_next_token_range(self.src@, self.pos as int);
        }
        self.skip_whitespace();
        let n = self.src.as_str().unicode_len();
        if self.pos >= n {
            return Token::Eof;
        }
        let c = self.src.as_str().get_char(self.pos);
        if c == '=' {
            if self.pos + 1 < n && self.src.as_str().get_char(self.pos + 1) == '=' {
                self.pos = self.pos + 2;
                Token::Eq
            } else {
                self.pos = self.pos + 1;
                Token::Assign
            }
        } else if c == '!' {
            if self.pos + 1 < n && self.src.as_str().get_char(self.pos + 1) == '=' {
                self.pos = self.pos + 2;
                Token::NotEq
            } else {
                self.pos = self.pos + 1;
                Token::Bang
            }
        } else if c == '+' {
            self.pos = self.pos + 1;
            Token::Plus
        } else if c == '-' {
            self.pos = self.pos + 1;
            Token::Minus
        } else if c == '*' {
            self.pos = self.pos + 1;
            Token::Asterisk
        } else if c == '/' {
            self.pos = self.pos + 1;
            Token::Slash
        } else if c == '<' {
            self.pos = self.pos + 1;
            Token::Lt
        } else if c == '>' {
            self.pos = self.pos + 1;
            Token::Gt
        } else if c == '(' {
            self.pos = self.pos + 1;
            Token::LParen
        } else if c == ')' {
            self.pos = self.pos + 1;
            Token::RParen
        } else if c == ';' {
            self.pos = self.pos + 1;
            Token::Semicolon
        } else if letter_char(c) {
            let word = self.read_identifier();
            Lexer::lookup_word(word)
        } else if digit_char(c) {
            let digits = self.read_number();
            Token::Int(digits)
        } else {
            let text = self.src.as_str().substring_char(self.pos, self.pos + 1).to_owned();
            self.pos = self.pos + 1;
            Token::Illegal(text)
        }
    }
}

} // verus!

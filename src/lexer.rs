//! The lexer: a single-pass scanner with one character of lookahead.
//!
//! `scan` is the model of one scanning step; `cursor_after` and `token_at`
//! describe the whole token stream produced by repeated calls.
use vstd::prelude::*;
use crate::text::{chars_of, string_of_range};
use crate::token::{keyword_kind, Token, TokenType, TokenView};

verus! {

/// Whitespace skipped between tokens.
pub open spec fn space_char(c: char) -> bool {
    c == ' ' || c == '\t' || c == '\n' || c == '\r'
}

/// Characters that may start an identifier: ASCII letters and underscore.
pub open spec fn letter_char(c: char) -> bool {
    ('a' <= c && c <= 'z') || ('A' <= c && c <= 'Z') || c == '_'
}

pub open spec fn digit_char(c: char) -> bool {
    '0' <= c && c <= '9'
}

/// Characters that may continue an identifier.
pub open spec fn word_char(c: char) -> bool {
    letter_char(c) || digit_char(c)
}

/// The category of a one-character token; `Illegal` for any other character.
pub open spec fn single_kind(c: char) -> TokenType {
    if c == '=' {
        TokenType::Assign
    } else if c == '+' {
        TokenType::Plus
    } else if c == '-' {
        TokenType::Minus
    } else if c == '!' {
        TokenType::Bang
    } else if c == '*' {
        TokenType::Asterisk
    } else if c == '/' {
        TokenType::Slash
    } else if c == '<' {
        TokenType::Lt
    } else if c == '>' {
        TokenType::Gt
    } else if c == ',' {
        TokenType::Comma
    } else if c == ';' {
        TokenType::Semicolon
    } else if c == '(' {
        TokenType::Lparen
    } else if c == ')' {
        TokenType::Rparen
    } else if c == '{' {
        TokenType::Lbrace
    } else if c == '}' {
        TokenType::Rbrace
    } else {
        TokenType::Illegal
    }
}

/// The first position at or after `p` that does not hold whitespace.
pub open spec fn skip_spaces(s: Seq<char>, p: nat) -> nat
    decreases s.len() - p,
{
    if p < s.len() && space_char(s[p as int]) {
        skip_spaces(s, p + 1)
    } else {
        p
    }
}

/// The end of the maximal run of identifier characters starting at `p`.
pub open spec fn word_end(s: Seq<char>, p: nat) -> nat
    decreases s.len() - p,
{
    if p < s.len() && word_char(s[p as int]) {
        word_end(s, p + 1)
    } else {
        p
    }
}

/// The end of the maximal run of digits starting at `p`.
pub open spec fn number_end(s: Seq<char>, p: nat) -> nat
    decreases s.len() - p,
{
    if p < s.len() && digit_char(s[p as int]) {
        number_end(s, p + 1)
    } else {
        p
    }
}

/// One scanning step from position `p` of `s`: the token found and the
/// position just after it.
#[verifier::opaque]
pub open spec fn scan(s: Seq<char>, p: nat) -> (TokenView, nat) {
    let q = skip_spaces(s, p);
    if q >= s.len() {
        (TokenView { kind: TokenType::Eof, literal: Seq::empty() }, q)
    } else {
        let c = s[q as int];
        if (c == '=' || c == '!') && q + 1 < s.len() && s[q + 1int] == '=' {
            let kind = if c == '=' { TokenType::Equal } else { TokenType::NotEqual };
            (TokenView { kind, literal: s.subrange(q as int, q + 2int) }, q + 2)
        } else if letter_char(c) {
            let e = word_end(s, q);
            let word = s.subrange(q as int, e as int);
            (TokenView { kind: keyword_kind(word), literal: word }, e)
        } else if digit_char(c) {
            let e = number_end(s, q);
            (TokenView { kind: TokenType::Int, literal: s.subrange(q as int, e as int) }, e)
        } else {
            (TokenView { kind: single_kind(c), literal: seq![c] }, q + 1)
        }
    }
}

/// The scanning position after `n` tokens have been read from `start`.
pub open spec fn cursor_after(s: Seq<char>, start: nat, n: nat) -> nat
    decreases n,
{
    if n == 0 {
        start
    } else {
        scan(s, cursor_after(s, start, (n - 1) as nat)).1
    }
}

/// The token at index `n` of the stream read from position `start`.
pub open spec fn token_at(s: Seq<char>, start: nat, n: nat) -> TokenView {
    scan(s, cursor_after(s, start, n)).0
}

pub open spec fn eof_token() -> TokenView {
    TokenView { kind: TokenType::Eof, literal: Seq::empty() }
}

proof fn lemma_skip_spaces_bounds(s: Seq<char>, p: nat)
    ensures
        p <= skip_spaces(s, p),
        p >= s.len() ==> skip_spaces(s, p) == p,
        skip_spaces(s, p) < s.len() ==> !space_char(s[skip_spaces(s, p) as int]),
    decreases s.len() - p,
{
    if p < s.len() && space_char(s[p as int]) {
        lemma_skip_spaces_bounds(s, p + 1);
    }
}

proof fn lemma_word_end_bounds(s: Seq<char>, p: nat)
    ensures
        p <= word_end(s, p),
        p < s.len() && word_char(s[p as int]) ==> p < word_end(s, p),
    decreases s.len() - p,
{
    if p < s.len() && word_char(s[p as int]) {
        lemma_word_end_bounds(s, p + 1);
    }
}

proof fn lemma_number_end_bounds(s: Seq<char>, p: nat)
    ensures
        p <= number_end(s, p),
        p < s.len() && digit_char(s[p as int]) ==> p < number_end(s, p),
    decreases s.len() - p,
{
    if p < s.len() && digit_char(s[p as int]) {
        lemma_number_end_bounds(s, p + 1);
    }
}

/// A scanning step that finds a token other than `Eof` starts inside the
/// source and moves strictly forward; one that finds `Eof` stops at or past
/// the end, where scanning again finds `Eof` at the same position.
pub proof fn lemma_scan_progress(s: Seq<char>, p: nat)
    ensures
        scan(s, p).0.kind != TokenType::Eof ==> p < scan(s, p).1 && p < s.len(),
        scan(s, p).0.kind == TokenType::Eof ==> {
            &&& scan(s, p).0 == eof_token()
            &&& s.len() <= scan(s, p).1
            &&& scan(s, scan(s, p).1) == (eof_token(), scan(s, p).1)
        },
{
    reveal(scan);
    let q = skip_spaces(s, p);
    lemma_skip_spaces_bounds(s, p);
    lemma_skip_spaces_bounds(s, q);
    if q < s.len() {
        lemma_word_end_bounds(s, q);
        lemma_number_end_bounds(s, q);
    }
}

/// Once the token stream reaches `Eof`, every later token is `Eof` with an
/// empty literal: calling `next_token` past the end of input is stable.
pub proof fn lemma_eof_is_sticky(s: Seq<char>, start: nat, i: nat, j: nat)
    requires
        token_at(s, start, i).kind == TokenType::Eof,
        i <= j,
    ensures
        token_at(s, start, j) == eof_token(),
        j > i ==> cursor_after(s, start, j) == scan(s, cursor_after(s, start, i)).1,
    decreases j - i,
{
    let e = scan(s, cursor_after(s, start, i)).1;
    lemma_scan_progress(s, cursor_after(s, start, i));
    if j > i {
        lemma_eof_is_sticky(s, start, i, (j - 1) as nat);
        assert(cursor_after(s, start, j) == scan(s, cursor_after(s, start, (j - 1) as nat)).1);
        assert(cursor_after(s, start, j) == e);
    }
}

/// A token other than `Eof` can only sit at an index below the source length,
/// since each such token consumes at least one character.
pub proof fn lemma_live_index_bound(s: Seq<char>, start: nat, n: nat)
    requires
        token_at(s, start, n).kind != TokenType::Eof,
    ensures
        n < s.len(),
        start + n <= cursor_after(s, start, n),
        cursor_after(s, start, n) < s.len(),
    decreases n,
{
    lemma_scan_progress(s, cursor_after(s, start, n));
    if n > 0 {
        let m = (n - 1) as nat;
        if token_at(s, start, m).kind == TokenType::Eof {
            lemma_eof_is_sticky(s, start, m, n);
        }
        lemma_live_index_bound(s, start, m);
        lemma_scan_progress(s, cursor_after(s, start, m));
    }
}

/// The scanner state: the source characters, the position of the current
/// character, and the current character itself (`None` at end of input).
#[derive(Debug, Clone)]
pub struct Lexer {
    input: Vec<char>,
    position: usize,
    ch: Option<char>,
}

impl Lexer {
    /// The characters being scanned.
    pub closed spec fn source(&self) -> Seq<char> {
        self.input@
    }

    /// The position of the current character.
    pub closed spec fn cursor(&self) -> nat {
        self.position as nat
    }

    /// The position of the character after the current one.
    pub closed spec fn read_position(&self) -> nat {
        self.position as nat + 1
    }

    pub closed spec fn wf(&self) -> bool {
        &&& self.position <= self.input@.len()
        &&& self.ch == if self.position < self.input@.len() {
            Some(self.input@[self.position as int])
        } else {
            None::<char>
        }
    }

    /// A lexer positioned at the first character of `input`.
    pub fn new(input: &str) -> (r: Self)
        ensures
            r.wf(),
            r.source() == input@,
            r.cursor() == 0,
    {
        let chars = chars_of(input);
        let ch = if chars.len() > 0 { Some(chars[0]) } else { None };
        Lexer { input: chars, position: 0, ch }
    }

    /// Moves one character forward; stays at the end of input once there.
    fn read_char(&mut self)
        requires
            old(self).wf(),
        ensures
            final(self).wf(),
            final(self).input == old(self).input,
            final(self).cursor() == if old(self).cursor() < old(self).source().len() {
                old(self).cursor() + 1
            } else {
                old(self).cursor()
            },
    {
        if self.position < self.input.len() {
            self.position = self.position + 1;
            self.ch = if self.position < self.input.len() {
                Some(self.input[self.position])
            } else {
                None
            };
        }
    }

    /// The character after the current one, if any.
    fn peek_char(&self) -> (r: Option<char>)
        requires
            self.wf(),
        ensures
            r == if self.read_position() < self.source().len() {
                Some(self.source()[self.read_position() as int])
            } else {
                None::<char>
            },
    {
        if self.position < self.input.len() && self.position + 1 < self.input.len() {
            Some(self.input[self.position + 1])
        } else {
            None
        }
    }

    fn skip_white_space(&mut self)
        requires
            old(self).wf(),
        ensures
            final(self).wf(),
            final(self).input == old(self).input,
            final(self).cursor() == skip_spaces(old(self).source(), old(self).cursor()),
    {
        while self.ch.is_some() && is_space(self.ch.unwrap())
            invariant
                self.wf(),
                self.input == old(self).input,
                old(self).cursor() <= self.cursor(),
                skip_spaces(self.source(), self.cursor()) == skip_spaces(
                    old(self).source(),
                    old(self).cursor(),
                ),
            decreases self.source().len() - self.cursor(),
        {
            self.read_char();
        }
    }

    /// Reads the identifier that starts at the current character.
    fn read_identifer(&mut self) -> (r: String)
        requires
            old(self).wf(),
        ensures
            final(self).wf(),
            final(self).input == old(self).input,
            final(self).cursor() == word_end(old(self).source(), old(self).cursor()),
            r@ == old(self).source().subrange(old(self).cursor() as int, final(self).cursor() as int),
    {
        let position = self.position;
        while self.ch.is_some() && is_word_char(self.ch.unwrap())
            invariant
                self.wf(),
                self.input == old(self).input,
                position <= self.position,
                word_end(self.source(), self.cursor()) == word_end(
                    old(self).source(),
                    old(self).cursor(),
                ),
            decreases self.source().len() - self.cursor(),
        {
            self.read_char();
        }
        string_of_range(&self.input, position, self.position)
    }

    /// Reads the run of digits that starts at the current character.
    fn read_number(&mut self) -> (r: String)
        requires
            old(self).wf(),
        ensures
            final(self).wf(),
            final(self).input == old(self).input,
            final(self).cursor() == number_end(old(self).source(), old(self).cursor()),
            r@ == old(self).source().subrange(old(self).cursor() as int, final(self).cursor() as int),
    {
        let position = self.position;
        while self.ch.is_some() && is_digit(self.ch.unwrap())
            invariant
                self.wf(),
                self.input == old(self).input,
                position <= self.position,
                number_end(self.source(), self.cursor()) == number_end(
                    old(self).source(),
                    old(self).cursor(),
                ),
            decreases self.source().len() - self.cursor(),
        {
            self.read_char();
        }
        string_of_range(&self.input, position, self.position)
    }

    /// Scans and returns the next token; at end of input this is an `Eof`
    /// token with an empty literal, on every call.
    pub fn next_token(&mut self) -> (tok: Token)
        requires
            old(self).wf(),
        ensures
            final(self).wf(),
            final(self).source() == old(self).source(),
            (tok@, final(self).cursor()) == scan(old(self).source(), old(self).cursor()),
    {
        proof {
            reveal(scan);
        }
        self.skip_white_space();
        let ghost q = self.cursor();
        let ghost s = self.source();
        match self.ch {
            None => Token::new_token_from_char(TokenType::Eof, None),
            Some(c) => {
                let next = self.peek_char();
                if (c == '=' || c == '!') && next == Some('=') {
                    self.read_char();
                    self.read_char();
                    let kind = if c == '=' { TokenType::Equal } else { TokenType::NotEqual };
                    let mut literal = String::new();
                    crate::text::push_char(&mut literal, c);
                    crate::text::push_char(&mut literal, '=');
                    assert(literal@ =~= s.subrange(q as int, q + 2int));
                    Token { token_type: kind, literal }
                } else if is_letter(c) {
                    let literal = self.read_identifer();
                    let kind = TokenType::lookup_iden(literal.as_str());
                    Token { token_type: kind, literal }
                } else if is_digit(c) {
                    let literal = self.read_number();
                    Token { token_type: TokenType::Int, literal }
                } else {
                    self.read_char();
                    Token::new_token_from_char(single_char_kind(c), Some(c))
                }
            },
        }
    }
}

fn is_space(ch: char) -> (r: bool)
    ensures
        r == space_char(ch),
{
    ch == ' ' || ch == '\t' || ch == '\n' || ch == '\r'
}

/// Whether `ch` may start an identifier.
fn is_letter(ch: char) -> (r: bool)
    ensures
        r == letter_char(ch),
{
    ('a' <= ch && ch <= 'z') || ('A' <= ch && ch <= 'Z') || ch == '_'
}

fn is_digit(ch: char) -> (r: bool)
    ensures
        r == digit_char(ch),
{
    '0' <= ch && ch <= '9'
}

fn is_word_char(ch: char) -> (r: bool)
    ensures
        r == word_char(ch),
{
    is_letter(ch) || is_digit(ch)
}

fn single_char_kind(c: char) -> (r: TokenType)
    ensures
        r == single_kind(c),
{
    if c == '=' {
        TokenType::Assign
    } else if c == '+' {
        TokenType::Plus
    } else if c == '-' {
        TokenType::Minus
    } else if c == '!' {
        TokenType::Bang
    } else if c == '*' {
        TokenType::Asterisk
    } else if c == '/' {
        TokenType::Slash
    } else if c == '<' {
        TokenType::Lt
    } else if c == '>' {
        TokenType::Gt
    } else if c == ',' {
        TokenType::Comma
    } else if c == ';' {
        TokenType::Semicolon
    } else if c == '(' {
        TokenType::Lparen
    } else if c == ')' {
        TokenType::Rparen
    } else if c == '{' {
        TokenType::Lbrace
    } else if c == '}' {
        TokenType::Rbrace
    } else {
        TokenType::Illegal
    }
}

} // verus!

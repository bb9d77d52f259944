//! The token model: the closed set of lexical categories and the tokens
//! that carry them together with the source text that produced them.
use vstd::prelude::*;
use crate::text::{push_char, same_chars};

verus! {

/// The lexical category of a token.
#[derive(Debug, Clone, Copy, PartialEq, Eq, Structural)]
pub enum TokenType {
    Illegal,
    Eof,
    Ident,
    Int,
    Assign,
    Plus,
    Minus,
    Bang,
    Asterisk,
    Slash,
    Lt,
    Gt,
    Equal,
    NotEqual,
    Comma,
    Semicolon,
    Lparen,
    Rparen,
    Lbrace,
    Rbrace,
    Function,
    Let,
    True,
    False,
    If,
    Else,
    Return,
}

/// What a token is, as a mathematical value.
pub struct TokenView {
    pub kind: TokenType,
    pub literal: Seq<char>,
}

/// A token: its category and the exact source text it was scanned from
/// (empty for the end-of-input token).
#[derive(Debug, Clone)]
pub struct Token {
    pub token_type: TokenType,
    pub literal: String,
}

impl View for Token {
    type V = TokenView;

    open spec fn view(&self) -> TokenView {
        TokenView { kind: self.token_type, literal: self.literal@ }
    }
}

/// The keyword table: the category of an identifier-shaped word.
pub open spec fn keyword_kind(word: Seq<char>) -> TokenType {
    if word == "fn"@ {
        TokenType::Function
    } else if word == "let"@ {
        TokenType::Let
    } else if word == "true"@ {
        TokenType::True
    } else if word == "false"@ {
        TokenType::False
    } else if word == "if"@ {
        TokenType::If
    } else if word == "else"@ {
        TokenType::Else
    } else if word == "return"@ {
        TokenType::Return
    } else {
        TokenType::Ident
    }
}

/// The display text of a category: the operator or delimiter itself, or an
/// upper-case word for the other categories.
pub open spec fn value_of(t: TokenType) -> Seq<char> {
    match t {
        TokenType::Illegal => "ILLEGAL"@,
        TokenType::Eof => "EOF"@,
        TokenType::Ident => "IDENT"@,
        TokenType::Int => "INT"@,
        TokenType::Assign => "="@,
        TokenType::Plus => "+"@,
        TokenType::Minus => "-"@,
        TokenType::Bang => "!"@,
        TokenType::Asterisk => "*"@,
        TokenType::Slash => "/"@,
        TokenType::Lt => "<"@,
        TokenType::Gt => ">"@,
        TokenType::Equal => "=="@,
        TokenType::NotEqual => "!="@,
        TokenType::Comma => ","@,
        TokenType::Semicolon => ";"@,
        TokenType::Lparen => "("@,
        TokenType::Rparen => ")"@,
        TokenType::Lbrace => "{"@,
        TokenType::Rbrace => "}"@,
        TokenType::Function => "FUNCTION"@,
        TokenType::Let => "LET"@,
        TokenType::True => "TRUE"@,
        TokenType::False => "FALSE"@,
        TokenType::If => "IF"@,
        TokenType::Else => "ELSE"@,
        TokenType::Return => "RETURN"@,
    }
}

/// The name of a category as it appears in parse error messages.
pub open spec fn name_of(t: TokenType) -> Seq<char> {
    match t {
        TokenType::Illegal => "Illegal"@,
        TokenType::Eof => "Eof"@,
        TokenType::Ident => "Ident"@,
        TokenType::Int => "Int"@,
        TokenType::Assign => "Assign"@,
        TokenType::Plus => "Plus"@,
        TokenType::Minus => "Minus"@,
        TokenType::Bang => "Bang"@,
        TokenType::Asterisk => "Asterisk"@,
        TokenType::Slash => "Slash"@,
        TokenType::Lt => "Lt"@,
        TokenType::Gt => "Gt"@,
        TokenType::Equal => "Equal"@,
        TokenType::NotEqual => "NotEqual"@,
        TokenType::Comma => "Comma"@,
        TokenType::Semicolon => "Semicolon"@,
        TokenType::Lparen => "Lparen"@,
        TokenType::Rparen => "Rparen"@,
        TokenType::Lbrace => "Lbrace"@,
        TokenType::Rbrace => "Rbrace"@,
        TokenType::Function => "Function"@,
        TokenType::Let => "Let"@,
        TokenType::True => "True"@,
        TokenType::False => "False"@,
        TokenType::If => "If"@,
        TokenType::Else => "Else"@,
        TokenType::Return => "Return"@,
    }
}

impl TokenType {
    /// The display text of this category.
    pub fn value(&self) -> (r: &'static str)
        ensures
            r@ == value_of(*self),
    {
        match self {
            TokenType::Illegal => "ILLEGAL",
            TokenType::Eof => "EOF",
            TokenType::Ident => "IDENT",
            TokenType::Int => "INT",
            TokenType::Assign => "=",
            TokenType::Plus => "+",
            TokenType::Minus => "-",
            TokenType::Bang => "!",
            TokenType::Asterisk => "*",
            TokenType::Slash => "/",
            TokenType::Lt => "<",
            TokenType::Gt => ">",
            TokenType::Equal => "==",
            TokenType::NotEqual => "!=",
            TokenType::Comma => ",",
            TokenType::Semicolon => ";",
            TokenType::Lparen => "(",
            TokenType::Rparen => ")",
            TokenType::Lbrace => "{",
            TokenType::Rbrace => "}",
            TokenType::Function => "FUNCTION",
            TokenType::Let => "LET",
            TokenType::True => "TRUE",
            TokenType::False => "FALSE",
            TokenType::If => "IF",
            TokenType::Else => "ELSE",
            TokenType::Return => "RETURN",
        }
    }

    /// The name of this category in error messages.
    pub fn name(&self) -> (r: &'static str)
        ensures
            r@ == name_of(*self),
    {
        match self {
            TokenType::Illegal => "Illegal",
            TokenType::Eof => "Eof",
            TokenType::Ident => "Ident",
            TokenType::Int => "Int",
            TokenType::Assign => "Assign",
            TokenType::Plus => "Plus",
            TokenType::Minus => "Minus",
            TokenType::Bang => "Bang",
            TokenType::Asterisk => "Asterisk",
            TokenType::Slash => "Slash",
            TokenType::Lt => "Lt",
            TokenType::Gt => "Gt",
            TokenType::Equal => "Equal",
            TokenType::NotEqual => "NotEqual",
            TokenType::Comma => "Comma",
            TokenType::Semicolon => "Semicolon",
            TokenType::Lparen => "Lparen",
            TokenType::Rparen => "Rparen",
            TokenType::Lbrace => "Lbrace",
            TokenType::Rbrace => "Rbrace",
            TokenType::Function => "Function",
            TokenType::Let => "Let",
            TokenType::True => "True",
            TokenType::False => "False",
            TokenType::If => "If",
            TokenType::Else => "Else",
            TokenType::Return => "Return",
        }
    }

    /// The category of an identifier-shaped word: its keyword, or `Ident`.
    pub fn lookup_iden(ident: &str) -> (r: TokenType)
        ensures
            r == keyword_kind(ident@),
    {
        if same_chars(ident, "fn") {
            TokenType::Function
        } else if same_chars(ident, "let") {
            TokenType::Let
        } else if same_chars(ident, "true") {
            TokenType::True
        } else if same_chars(ident, "false") {
            TokenType::False
        } else if same_chars(ident, "if") {
            TokenType::If
        } else if same_chars(ident, "else") {
            TokenType::Else
        } else if same_chars(ident, "return") {
            TokenType::Return
        } else {
            TokenType::Ident
        }
    }
}

/// The literal text for an optional character: the character itself, or
/// nothing.
pub open spec fn char_literal(c: Option<char>) -> Seq<char> {
    match c {
        Some(ch) => seq![ch],
        None => Seq::empty(),
    }
}

impl Token {
    /// A token whose literal is the given character, or empty for `None`.
    pub fn new_token_from_char(token_type: TokenType, literal: Option<char>) -> (r: Self)
        ensures
            r@ == (TokenView { kind: token_type, literal: char_literal(literal) }),
    {
        let mut s = String::new();
        match literal {
            Some(c) => push_char(&mut s, c),
            None => {},
        }
        proof {
            if literal is Some {
                assert(s@ =~= seq![literal->0]);
            }
        }
        Token { token_type, literal: s }
    }

    /// A token whose literal is a copy of the given text.
    pub fn new_token_from_str(token_type: TokenType, literal: &str) -> (r: Self)
        ensures
            r@ == (TokenView { kind: token_type, literal: literal@ }),
    {
        Token { token_type, literal: literal.to_owned() }
    }

    /// A copy of this token.
    pub fn duplicate(&self) -> (r: Self)
        ensures
            r@ == self@,
    {
        Token { token_type: self.token_type, literal: self.literal.clone() }
    }
}

impl Default for Token {
    fn default() -> (r: Self)
        ensures
            r@ == (TokenView { kind: TokenType::Illegal, literal: Seq::empty() }),
    {
        Token { token_type: TokenType::Illegal, literal: String::new() }
    }
}

} // verus!

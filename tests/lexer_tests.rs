use monkey::lexer::Lexer;
use monkey::token::TokenType::{
    Asterisk, Assign, Bang, Comma, Else, Eof, Equal, False, Function, Gt, Ident, If, Illegal, Int,
    Lbrace, Let, Lparen, Lt, Minus, NotEqual, Plus, Rbrace, Return, Rparen, Semicolon, Slash, True,
};
use monkey::token::{Token, TokenType};

struct ExpectedToken {
    expected_type: TokenType,
    literal: String,
}

impl ExpectedToken {
    fn new_token(expected_type: TokenType, literal: &str) -> Self {
        Self { expected_type, literal: literal.to_string() }
    }
}

fn kinds_and_literals(input: &str) -> Vec<(TokenType, String)> {
    let mut l = Lexer::new(input);
    let mut out = Vec::new();
    loop {
        let tok = l.next_token();
        let done = tok.token_type == TokenType::Eof;
        out.push((tok.token_type, tok.literal));
        if done {
            return out;
        }
    }
}

#[test]
fn next_token_confirm() {
    let input = "
let five = 5;
let ten = 10;

let add = fn(x, y) {
    x + y;
};

let result = add(five, ten);
!-/*5;
5 < 10 > 5;

if (5 < 10) {
    return true;
} else {
    return false;
}

10 == 10;
10 != 9;
";
    let tests = [
        ExpectedToken::new_token(Let, "let"),
        ExpectedToken::new_token(Ident, "five"),
        ExpectedToken::new_token(Assign, "="),
        ExpectedToken::new_token(Int, "5"),
        ExpectedToken::new_token(Semicolon, ";"),
        ExpectedToken::new_token(Let, "let"),
        ExpectedToken::new_token(Ident, "ten"),
        ExpectedToken::new_token(Assign, "="),
        ExpectedToken::new_token(Int, "10"),
        ExpectedToken::new_token(Semicolon, ";"),
        ExpectedToken::new_token(Let, "let"),
        ExpectedToken::new_token(Ident, "add"),
        ExpectedToken::new_token(Assign, "="),
        ExpectedToken::new_token(Function, "fn"),
        ExpectedToken::new_token(Lparen, "("),
        ExpectedToken::new_token(Ident, "x"),
        ExpectedToken::new_token(Comma, ","),
        ExpectedToken::new_token(Ident, "y"),
        ExpectedToken::new_token(Rparen, ")"),
        ExpectedToken::new_token(Lbrace, "{"),
        ExpectedToken::new_token(Ident, "x"),
        ExpectedToken::new_token(Plus, "+"),
        ExpectedToken::new_token(Ident, "y"),
        ExpectedToken::new_token(Semicolon, ";"),
        ExpectedToken::new_token(Rbrace, "}"),
        ExpectedToken::new_token(Semicolon, ";"),
        ExpectedToken::new_token(Let, "let"),
        ExpectedToken::new_token(Ident, "result"),
        ExpectedToken::new_token(Assign, "="),
        ExpectedToken::new_token(Ident, "add"),
        ExpectedToken::new_token(Lparen, "("),
        ExpectedToken::new_token(Ident, "five"),
        ExpectedToken::new_token(Comma, ","),
        ExpectedToken::new_token(Ident, "ten"),
        ExpectedToken::new_token(Rparen, ")"),
        ExpectedToken::new_token(Semicolon, ";"),
        ExpectedToken::new_token(Bang, "!"),
        ExpectedToken::new_token(Minus, "-"),
        ExpectedToken::new_token(Slash, "/"),
        ExpectedToken::new_token(Asterisk, "*"),
        ExpectedToken::new_token(Int, "5"),
        ExpectedToken::new_token(Semicolon, ";"),
        ExpectedToken::new_token(Int, "5"),
        ExpectedToken::new_token(Lt, "<"),
        ExpectedToken::new_token(Int, "10"),
        ExpectedToken::new_token(Gt, ">"),
        ExpectedToken::new_token(Int, "5"),
        ExpectedToken::new_token(Semicolon, ";"),
        ExpectedToken::new_token(If, "if"),
        ExpectedToken::new_token(Lparen, "("),
        ExpectedToken::new_token(Int, "5"),
        ExpectedToken::new_token(Lt, "<"),
        ExpectedToken::new_token(Int, "10"),
        ExpectedToken::new_token(Rparen, ")"),
        ExpectedToken::new_token(Lbrace, "{"),
        ExpectedToken::new_token(Return, "return"),
        ExpectedToken::new_token(True, "true"),
        ExpectedToken::new_token(Semicolon, ";"),
        ExpectedToken::new_token(Rbrace, "}"),
        ExpectedToken::new_token(Else, "else"),
        ExpectedToken::new_token(Lbrace, "{"),
        ExpectedToken::new_token(Return, "return"),
        ExpectedToken::new_token(False, "false"),
        ExpectedToken::new_token(Semicolon, ";"),
        ExpectedToken::new_token(Rbrace, "}"),
        ExpectedToken::new_token(Int, "10"),
        ExpectedToken::new_token(Equal, "=="),
        ExpectedToken::new_token(Int, "10"),
        ExpectedToken::new_token(Semicolon, ";"),
        ExpectedToken::new_token(Int, "10"),
        ExpectedToken::new_token(NotEqual, "!="),
        ExpectedToken::new_token(Int, "9"),
        ExpectedToken::new_token(Semicolon, ";"),
        ExpectedToken::new_token(Eof, ""),
    ];

    let mut l = Lexer::new(input);
    for (i, tt) in tests.iter().enumerate() {
        let tok = l.next_token();

        assert!(
            tok.token_type.value() == tt.expected_type.value(),
            "tests[{}], - tokentype wrong. expected={}, got={}",
            i,
            tt.expected_type.value(),
            tok.token_type.value()
        );
        assert_eq!(
            tok.literal,
            tt.literal,
            "tests[{}], - literal wrong. expected={}, got={}",
            i,
            tt.expected_type.value(),
            tok.token_type.value()
        );
    }
}

#[test]
fn end_of_input_is_returned_forever() {
    for input in ["", "   \n\t", "let x = 1;", "x"] {
        let mut l = Lexer::new(input);
        let mut seen_eof = 0;
        for _ in 0..20 {
            let tok = l.next_token();
            if tok.token_type == TokenType::Eof {
                assert_eq!(tok.literal, "");
                seen_eof += 1;
            } else {
                assert_eq!(seen_eof, 0, "a token came after Eof for {:?}", input);
            }
        }
        assert!(seen_eof >= 15);
    }
}

#[test]
fn delimiters_and_operators() {
    let got = kinds_and_literals("=+(){},;");
    let want = [
        (Assign, "="),
        (Plus, "+"),
        (Lparen, "("),
        (Rparen, ")"),
        (Lbrace, "{"),
        (Rbrace, "}"),
        (Comma, ","),
        (Semicolon, ";"),
        (Eof, ""),
    ];
    assert_eq!(got.len(), want.len());
    for (g, w) in got.iter().zip(want.iter()) {
        assert_eq!(g.0, w.0);
        assert_eq!(g.1, w.1);
    }
}

#[test]
fn let_five_tokens() {
    let got = kinds_and_literals("let five = 5;");
    let want = [(Let, "let"), (Ident, "five"), (Assign, "="), (Int, "5"), (Semicolon, ";"), (Eof, "")];
    assert_eq!(got.len(), want.len());
    for (g, w) in got.iter().zip(want.iter()) {
        assert_eq!(g.0, w.0);
        assert_eq!(g.1, w.1);
    }
}

#[test]
fn identifiers_keep_digits_and_underscores() {
    let got = kinds_and_literals("_a1 b_2c 12ab");
    assert_eq!(got[0], (Ident, "_a1".to_string()));
    assert_eq!(got[1], (Ident, "b_2c".to_string()));
    assert_eq!(got[2], (Int, "12".to_string()));
    assert_eq!(got[3], (Ident, "ab".to_string()));
    assert_eq!(got[4], (Eof, "".to_string()));
}

#[test]
fn unknown_characters_are_illegal() {
    let got = kinds_and_literals("a @ é");
    assert_eq!(got[1], (Illegal, "@".to_string()));
    assert_eq!(got[2], (Illegal, "é".to_string()));
    assert_eq!(got[3], (Eof, "".to_string()));
}

#[test]
fn two_character_operators_at_end() {
    let got = kinds_and_literals("!=!");
    assert_eq!(got[0], (NotEqual, "!=".to_string()));
    assert_eq!(got[1], (Bang, "!".to_string()));
    let got = kinds_and_literals("= =");
    assert_eq!(got[0], (Assign, "=".to_string()));
    assert_eq!(got[1], (Assign, "=".to_string()));
}

#[test]
fn keyword_table() {
    assert_eq!(TokenType::lookup_iden("fn"), TokenType::Function);
    assert_eq!(TokenType::lookup_iden("let"), TokenType::Let);
    assert_eq!(TokenType::lookup_iden("true"), TokenType::True);
    assert_eq!(TokenType::lookup_iden("false"), TokenType::False);
    assert_eq!(TokenType::lookup_iden("if"), TokenType::If);
    assert_eq!(TokenType::lookup_iden("else"), TokenType::Else);
    assert_eq!(TokenType::lookup_iden("return"), TokenType::Return);
    assert_eq!(TokenType::lookup_iden("lets"), TokenType::Ident);
    assert_eq!(TokenType::lookup_iden(""), TokenType::Ident);
}

#[test]
fn token_constructors() {
    let t = Token::new_token_from_char(TokenType::Plus, Some('+'));
    assert_eq!(t.literal, "+");
    let t = Token::new_token_from_char(TokenType::Eof, None);
    assert_eq!(t.literal, "");
    let t = Token::new_token_from_str(TokenType::Ident, "abc");
    assert_eq!(t.literal, "abc");
    assert_eq!(t.duplicate().literal, "abc");
    assert_eq!(TokenType::Equal.value(), "==");
    assert_eq!(TokenType::Let.value(), "LET");
    assert_eq!(TokenType::Assign.name(), "Assign");
}

//! The parser: recursive descent over statements, with Pratt-style
//! operator-precedence climbing for expressions.
//!
//! The spec functions below are the model of the parser: each takes the
//! token stream and a parser state (index of the current token and the
//! errors recorded so far) and gives the node built, if any, and the state
//! after it. The checks `live` and `p.idx >= ps.idx` make termination
//! evident; each method of `Parser` proves them true where it follows the
//! corresponding function, so they never cut its parse short.
use vstd::prelude::*;
use crate::ast::{
    block, block_view, expr_bool, expr_call, expr_function, expr_ident, expr_if, expr_infix,
    expr_int, expr_prefix, expr_view, exprs_view, ident_view, idents_view, lemma_exprs_view_push,
    lemma_stmts_view_push, lemma_views_empty, stmt_expression, stmt_let, stmt_return, stmt_view,
    stmts_view, BlockStatement, BlockView, ExprView, ExpressionType, IdentView, Identifer, Program,
    StatementType, StmtView,
};
use crate::lexer::{cursor_after, lemma_live_index_bound, token_at, Lexer};
use crate::text::{chars_of, push_str};
use crate::token::{name_of, Token, TokenType, TokenView};

verus! {

pub const LOWEST: u8 = 1;
pub const EQUALS: u8 = 2;
pub const LESSGREATER: u8 = 3;
pub const SUM: u8 = 4;
pub const PRODUCT: u8 = 5;
pub const PREFIX: u8 = 6;
pub const CALL: u8 = 7;

/// The binding power of a token in infix position.
pub open spec fn precedence_of(k: TokenType) -> u8 {
    match k {
        TokenType::Equal | TokenType::NotEqual => EQUALS,
        TokenType::Lt | TokenType::Gt => LESSGREATER,
        TokenType::Plus | TokenType::Minus => SUM,
        TokenType::Slash | TokenType::Asterisk => PRODUCT,
        TokenType::Lparen => CALL,
        _ => LOWEST,
    }
}

/// The tokens a parser reads: those scanned from `src` starting at `start`.
pub struct Stream {
    pub src: Seq<char>,
    pub start: nat,
}

/// Where the parser stands: the index of its current token in the stream,
/// and the error messages recorded so far.
pub struct PState {
    pub idx: nat,
    pub errors: Seq<Seq<char>>,
}

pub open spec fn tk(st: Stream, i: nat) -> TokenView {
    token_at(st.src, st.start, i)
}

pub open spec fn kind(st: Stream, i: nat) -> TokenType {
    tk(st, i).kind
}

/// Only indices below the source length can hold a token other than `Eof`.
pub open spec fn live(st: Stream, i: nat) -> bool {
    i < st.src.len()
}

pub open spec fn rem(st: Stream, i: nat) -> nat {
    if i < st.src.len() {
        (st.src.len() - i) as nat
    } else {
        0
    }
}

pub open spec fn at(ps: PState, i: nat) -> PState {
    PState { idx: i, errors: ps.errors }
}

pub open spec fn err(ps: PState, msg: Seq<char>) -> PState {
    PState { idx: ps.idx, errors: ps.errors.push(msg) }
}

pub open spec fn peek_error_msg(expected: TokenType, got: TokenType) -> Seq<char> {
    "expected next token to be "@ + name_of(expected) + ", got "@ + name_of(got) + " instead"@
}

pub open spec fn no_prefix_msg(k: TokenType) -> Seq<char> {
    "no prefix parse function for "@ + name_of(k) + " found"@
}

pub open spec fn int_error_msg(literal: Seq<char>) -> Seq<char> {
    "could not parse "@ + literal + " as integer"@
}

pub open spec fn is_digit_char(c: char) -> bool {
    '0' <= c && c <= '9'
}

/// The number written by a sequence of decimal digits.
pub open spec fn digits_value(s: Seq<char>) -> nat
    decreases s.len(),
{
    if s.len() == 0 {
        0
    } else {
        digits_value(s.drop_last()) * 10 + (s.last() as nat - '0' as nat) as nat
    }
}

/// The value of an integer literal: some non-empty run of digits whose value
/// fits in an `i64`.
pub open spec fn int_value(s: Seq<char>) -> Option<i64> {
    if s.len() > 0 && (forall|k: int| 0 <= k < s.len() ==> is_digit_char(#[trigger] s[k]))
        && digits_value(s) <= i64::MAX {
        Some(digits_value(s) as i64)
    } else {
        None
    }
}

/// Requires the next token to be of kind `k`: moves onto it, or records an
/// error and stays.
pub open spec fn expect(st: Stream, ps: PState, k: TokenType) -> (bool, PState) {
    if kind(st, ps.idx + 1) == k {
        (true, at(ps, ps.idx + 1))
    } else {
        (false, err(ps, peek_error_msg(k, kind(st, ps.idx + 1))))
    }
}

/// Moves onto a trailing semicolon, if the next token is one.
pub open spec fn skip_semicolon(st: Stream, ps: PState) -> PState {
    if kind(st, ps.idx + 1) == TokenType::Semicolon {
        at(ps, ps.idx + 1)
    } else {
        ps
    }
}

/// After a statement fails: moves forward until the current token is a
/// semicolon or the end, or the next one starts a statement or closes a
/// block.
pub open spec fn recover(st: Stream, ps: PState) -> PState
    decreases rem(st, ps.idx),
{
    let k = kind(st, ps.idx);
    let n = kind(st, ps.idx + 1);
    if k == TokenType::Semicolon || k == TokenType::Eof || n == TokenType::Let || n
        == TokenType::Return || n == TokenType::Rbrace || !live(st, ps.idx) {
        ps
    } else {
        recover(st, at(ps, ps.idx + 1))
    }
}

pub open spec fn parse_expression(st: Stream, prec: u8, ps: PState) -> (Option<ExprView>, PState)
    decreases rem(st, ps.idx), 6nat,
{
    let (l, p1) = parse_prefix(st, ps);
    match l {
        Some(e) => if p1.idx >= ps.idx {
            infix_loop(st, prec, e, p1)
        } else {
            (None, p1)
        },
        None => (None, p1),
    }
}

/// Folds infix operators into `left` while the next token binds tighter
/// than `prec`.
pub open spec fn infix_loop(st: Stream, prec: u8, left: ExprView, ps: PState) -> (
    Option<ExprView>,
    PState,
)
    decreases rem(st, ps.idx), 4nat,
{
    if prec < precedence_of(kind(st, ps.idx + 1)) && live(st, ps.idx) {
        let (r, p2) = parse_infix(st, left, at(ps, ps.idx + 1));
        match r {
            Some(e) => if p2.idx > ps.idx {
                infix_loop(st, prec, e, p2)
            } else {
                (None, p2)
            },
            None => (None, p2),
        }
    } else {
        (Some(left), ps)
    }
}

/// The current token is an infix operator, or the `(` of a call.
pub open spec fn parse_infix(st: Stream, left: ExprView, ps: PState) -> (Option<ExprView>, PState)
    decreases rem(st, ps.idx), 3nat,
{
    let t = tk(st, ps.idx);
    if t.kind == TokenType::Lparen {
        let (args, p2) = call_args(st, ps);
        match args {
            Some(a) => (
                Some(ExprView::Call { token: t, function: Box::new(left), arguments: a }),
                p2,
            ),
            None => (None, p2),
        }
    } else if live(st, ps.idx) {
        let (r, p2) = parse_expression(st, precedence_of(t.kind), at(ps, ps.idx + 1));
        match r {
            Some(e) => (
                Some(
                    ExprView::Infix {
                        token: t,
                        left: Box::new(left),
                        operator: t.literal,
                        right: Box::new(e),
                    },
                ),
                p2,
            ),
            None => (None, p2),
        }
    } else {
        (None, ps)
    }
}

/// The current token is the `(` that opens an argument list.
pub open spec fn call_args(st: Stream, ps: PState) -> (Option<Seq<ExprView>>, PState)
    decreases rem(st, ps.idx), 2nat,
{
    if kind(st, ps.idx + 1) == TokenType::Rparen {
        (Some(Seq::empty()), at(ps, ps.idx + 1))
    } else if live(st, ps.idx) {
        let (a, p2) = parse_expression(st, LOWEST, at(ps, ps.idx + 1));
        match a {
            Some(e) => if p2.idx > ps.idx {
                args_rest(st, seq![e], p2)
            } else {
                (None, p2)
            },
            None => (None, p2),
        }
    } else {
        (None, ps)
    }
}

/// The arguments after the first: `, <expression>` repeated, then `)`.
pub open spec fn args_rest(st: Stream, acc: Seq<ExprView>, ps: PState) -> (
    Option<Seq<ExprView>>,
    PState,
)
    decreases rem(st, ps.idx), 1nat,
{
    if kind(st, ps.idx + 1) == TokenType::Comma && live(st, ps.idx) {
        let (a, p2) = parse_expression(st, LOWEST, at(ps, ps.idx + 2));
        match a {
            Some(e) => if p2.idx > ps.idx {
                args_rest(st, acc.push(e), p2)
            } else {
                (None, p2)
            },
            None => (None, p2),
        }
    } else {
        let (ok, p2) = expect(st, ps, TokenType::Rparen);
        if ok {
            (Some(acc), p2)
        } else {
            (None, p2)
        }
    }
}

/// The expression that starts at the current token.
pub open spec fn parse_prefix(st: Stream, ps: PState) -> (Option<ExprView>, PState)
    decreases rem(st, ps.idx), 5nat,
{
    let t = tk(st, ps.idx);
    match t.kind {
        TokenType::Ident => (Some(ExprView::Ident(IdentView { token: t, value: t.literal })), ps),
        TokenType::Int => match int_value(t.literal) {
            Some(v) => (Some(ExprView::Int { token: t, value: v }), ps),
            None => (None, err(ps, int_error_msg(t.literal))),
        },
        TokenType::True => (Some(ExprView::Bool { token: t, value: true }), ps),
        TokenType::False => (Some(ExprView::Bool { token: t, value: false }), ps),
        TokenType::Bang | TokenType::Minus => if live(st, ps.idx) {
            let (r, p2) = parse_expression(st, PREFIX, at(ps, ps.idx + 1));
            match r {
                Some(e) => (
                    Some(ExprView::Prefix { token: t, operator: t.literal, right: Box::new(e) }),
                    p2,
                ),
                None => (None, p2),
            }
        } else {
            (None, ps)
        },
        TokenType::Lparen => if live(st, ps.idx) {
            let (r, p2) = parse_expression(st, LOWEST, at(ps, ps.idx + 1));
            match r {
                Some(e) => {
                    let (ok, p3) = expect(st, p2, TokenType::Rparen);
                    if ok {
                        (Some(e), p3)
                    } else {
                        (None, p3)
                    }
                },
                None => (None, p2),
            }
        } else {
            (None, ps)
        },
        TokenType::If => parse_if(st, ps),
        TokenType::Function => parse_function(st, ps),
        _ => (None, err(ps, no_prefix_msg(t.kind))),
    }
}

/// `if (<condition>) { ... }`, optionally followed by `else { ... }`; the
/// current token is `if`.
pub open spec fn parse_if(st: Stream, ps: PState) -> (Option<ExprView>, PState)
    decreases rem(st, ps.idx), 4nat,
{
    let t = tk(st, ps.idx);
    let (ok1, p1) = expect(st, ps, TokenType::Lparen);
    if !ok1 || !live(st, ps.idx) {
        (None, p1)
    } else {
        let (c, p2) = parse_expression(st, LOWEST, at(p1, p1.idx + 1));
        match c {
            None => (None, p2),
            Some(cond) => {
                let (ok2, p3) = expect(st, p2, TokenType::Rparen);
                if !ok2 {
                    (None, p3)
                } else {
                    let (ok3, p4) = expect(st, p3, TokenType::Lbrace);
                    if !ok3 || p4.idx <= ps.idx {
                        (None, p4)
                    } else {
                        let (cons, p5) = parse_block(st, p4);
                        if kind(st, p5.idx + 1) == TokenType::Else && p5.idx >= ps.idx {
                            let (ok4, p6) = expect(st, at(p5, p5.idx + 1), TokenType::Lbrace);
                            if !ok4 {
                                (None, p6)
                            } else {
                                let (alt, p7) = parse_block(st, p6);
                                (
                                    Some(
                                        ExprView::If {
                                            token: t,
                                            condition: Box::new(cond),
                                            consequence: cons,
                                            alternative: Some(alt),
                                        },
                                    ),
                                    p7,
                                )
                            }
                        } else {
                            (
                                Some(
                                    ExprView::If {
                                        token: t,
                                        condition: Box::new(cond),
                                        consequence: cons,
                                        alternative: None,
                                    },
                                ),
                                p5,
                            )
                        }
                    }
                }
            },
        }
    }
}

/// `fn (<parameters>) { ... }`; the current token is `fn`.
pub open spec fn parse_function(st: Stream, ps: PState) -> (Option<ExprView>, PState)
    decreases rem(st, ps.idx), 4nat,
{
    let t = tk(st, ps.idx);
    let (ok1, p1) = expect(st, ps, TokenType::Lparen);
    if !ok1 {
        (None, p1)
    } else {
        let (params, p2) = parse_params(st, p1);
        match params {
            None => (None, p2),
            Some(ps2) => {
                let (ok2, p3) = expect(st, p2, TokenType::Lbrace);
                if !ok2 || p3.idx <= ps.idx || !live(st, ps.idx) {
                    (None, p3)
                } else {
                    let (body, p4) = parse_block(st, p3);
                    (Some(ExprView::Function { token: t, parameters: ps2, body }), p4)
                }
            },
        }
    }
}

/// A parameter list; the current token is its `(`.
pub open spec fn parse_params(st: Stream, ps: PState) -> (Option<Seq<IdentView>>, PState) {
    if kind(st, ps.idx + 1) == TokenType::Rparen {
        (Some(Seq::empty()), at(ps, ps.idx + 1))
    } else {
        let (ok, p1) = expect(st, ps, TokenType::Ident);
        if !ok {
            (None, p1)
        } else {
            let t = tk(st, p1.idx);
            params_rest(st, seq![IdentView { token: t, value: t.literal }], p1)
        }
    }
}

/// The parameters after the first: `, <identifier>` repeated, then `)`.
pub open spec fn params_rest(st: Stream, acc: Seq<IdentView>, ps: PState) -> (
    Option<Seq<IdentView>>,
    PState,
)
    decreases rem(st, ps.idx),
{
    if kind(st, ps.idx + 1) == TokenType::Comma && live(st, ps.idx) {
        let (ok, p1) = expect(st, at(ps, ps.idx + 1), TokenType::Ident);
        if !ok {
            (None, p1)
        } else {
            let t = tk(st, p1.idx);
            params_rest(st, acc.push(IdentView { token: t, value: t.literal }), p1)
        }
    } else {
        let (ok, p1) = expect(st, ps, TokenType::Rparen);
        if ok {
            (Some(acc), p1)
        } else {
            (None, p1)
        }
    }
}

/// A block; the current token is its `{`. It ends on the matching `}` or at
/// the end of input.
pub open spec fn parse_block(st: Stream, ps: PState) -> (BlockView, PState)
    decreases rem(st, ps.idx), 10nat,
{
    if live(st, ps.idx) {
        let (stmts, p1) = block_stmts(st, Seq::empty(), at(ps, ps.idx + 1));
        (BlockView { token: tk(st, ps.idx), statements: stmts }, p1)
    } else {
        (BlockView { token: tk(st, ps.idx), statements: Seq::empty() }, ps)
    }
}

/// One step of a statement list: the statement at the current token is kept
/// if it parsed, or skipped by `recover`; either way the parser then moves
/// to the next token.
pub open spec fn after_statement(st: Stream, s: Option<StmtView>, acc: Seq<StmtView>, p: PState) -> (Seq<StmtView>, PState) {
    match s {
        Some(x) => (acc.push(x), p),
        None => (acc, recover(st, p)),
    }
}

pub open spec fn block_stmts(st: Stream, acc: Seq<StmtView>, ps: PState) -> (Seq<StmtView>, PState)
    decreases rem(st, ps.idx), 9nat,
{
    let k = kind(st, ps.idx);
    if k == TokenType::Rbrace || k == TokenType::Eof || !live(st, ps.idx) {
        (acc, ps)
    } else {
        let (s, p1) = parse_statement(st, ps);
        let (acc2, p2) = after_statement(st, s, acc, p1);
        if p2.idx >= ps.idx {
            block_stmts(st, acc2, at(p2, p2.idx + 1))
        } else {
            (acc2, p2)
        }
    }
}

pub open spec fn parse_statement(st: Stream, ps: PState) -> (Option<StmtView>, PState)
    decreases rem(st, ps.idx), 8nat,
{
    match kind(st, ps.idx) {
        TokenType::Let => parse_let(st, ps),
        TokenType::Return => parse_return(st, ps),
        _ => parse_expression_statement(st, ps),
    }
}

/// `let <identifier> = <expression>`, with an optional `;`.
pub open spec fn parse_let(st: Stream, ps: PState) -> (Option<StmtView>, PState)
    decreases rem(st, ps.idx), 7nat,
{
    let t = tk(st, ps.idx);
    let (ok1, p1) = expect(st, ps, TokenType::Ident);
    if !ok1 {
        (None, p1)
    } else {
        let name = tk(st, p1.idx);
        let (ok2, p2) = expect(st, p1, TokenType::Assign);
        if !ok2 || !live(st, ps.idx) {
            (None, p2)
        } else {
            let (v, p3) = parse_expression(st, LOWEST, at(p2, p2.idx + 1));
            match v {
                Some(e) => (
                    Some(
                        StmtView::Let {
                            token: t,
                            name: IdentView { token: name, value: name.literal },
                            value: e,
                        },
                    ),
                    skip_semicolon(st, p3),
                ),
                None => (None, p3),
            }
        }
    }
}

/// `return <expression>`, with an optional `;`.
pub open spec fn parse_return(st: Stream, ps: PState) -> (Option<StmtView>, PState)
    decreases rem(st, ps.idx), 7nat,
{
    let t = tk(st, ps.idx);
    if live(st, ps.idx) {
        let (v, p1) = parse_expression(st, LOWEST, at(ps, ps.idx + 1));
        match v {
            Some(e) => (Some(StmtView::Return { token: t, value: e }), skip_semicolon(st, p1)),
            None => (None, p1),
        }
    } else {
        (None, ps)
    }
}

/// An expression used as a statement, with an optional `;`.
pub open spec fn parse_expression_statement(st: Stream, ps: PState) -> (Option<StmtView>, PState)
    decreases rem(st, ps.idx), 7nat,
{
    let t = tk(st, ps.idx);
    let (v, p1) = parse_expression(st, LOWEST, ps);
    match v {
        Some(e) => (Some(StmtView::Expression { token: t, expression: e }), skip_semicolon(st, p1)),
        None => (None, p1),
    }
}

/// The statements of a program, from the current token to the end of input.
pub open spec fn program_stmts(st: Stream, acc: Seq<StmtView>, ps: PState) -> (Seq<StmtView>, PState)
    decreases rem(st, ps.idx),
{
    if kind(st, ps.idx) == TokenType::Eof || !live(st, ps.idx) {
        (acc, ps)
    } else {
        let (s, p1) = parse_statement(st, ps);
        let (acc2, p2) = after_statement(st, s, acc, p1);
        if p2.idx >= ps.idx {
            program_stmts(st, acc2, at(p2, p2.idx + 1))
        } else {
            (acc2, p2)
        }
    }
}

/// The model of a whole parse: the statements kept and the final state,
/// whose `errors` are the messages recorded on the way.
pub open spec fn parse_program_spec(st: Stream) -> (Seq<StmtView>, PState) {
    program_stmts(st, Seq::empty(), PState { idx: 0, errors: Seq::empty() })
}

// ---------------------------------------------------------------------------
// The parser itself
// ---------------------------------------------------------------------------

pub open spec fn opt_expr(o: Option<ExpressionType>) -> Option<ExprView> {
    match o {
        Some(e) => Some(expr_view(e)),
        None => None,
    }
}

pub open spec fn opt_stmt(o: Option<StatementType>) -> Option<StmtView> {
    match o {
        Some(s) => Some(stmt_view(s)),
        None => None,
    }
}

pub open spec fn opt_exprs(o: Option<Vec<ExpressionType>>) -> Option<Seq<ExprView>> {
    match o {
        Some(v) => Some(exprs_view(v@)),
        None => None,
    }
}

pub open spec fn opt_idents(o: Option<Vec<Identifer>>) -> Option<Seq<IdentView>> {
    match o {
        Some(v) => Some(idents_view(v@)),
        None => None,
    }
}

pub open spec fn errors_view(v: Seq<String>) -> Seq<Seq<char>> {
    v.map_values(|e: String| e@)
}

/// The binding power of a token in infix position.
pub fn precedence(k: TokenType) -> (r: u8)
    ensures
        r == precedence_of(k),
{
    match k {
        TokenType::Equal | TokenType::NotEqual => EQUALS,
        TokenType::Lt | TokenType::Gt => LESSGREATER,
        TokenType::Plus | TokenType::Minus => SUM,
        TokenType::Slash | TokenType::Asterisk => PRODUCT,
        TokenType::Lparen => CALL,
        _ => LOWEST,
    }
}

/// The value of an integer literal, or `None` when it is not a run of
/// digits or does not fit in an `i64`.
pub fn parse_integer(literal: &str) -> (r: Option<i64>)
    ensures
        r == int_value(literal@),
{
    let cs = chars_of(literal);
    if cs.len() == 0 {
        return None;
    }
    let mut acc: i64 = 0;
    let mut over = false;
    let mut i: usize = 0;
    while i < cs.len()
        invariant
            cs@ == literal@,
            i <= cs@.len(),
            forall|k: int| 0 <= k < i ==> is_digit_char(#[trigger] cs@[k]),
            over == (digits_value(cs@.subrange(0, i as int)) > i64::MAX),
            !over ==> acc == digits_value(cs@.subrange(0, i as int)),
        decreases cs@.len() - i,
    {
        let c = cs[i];
        if !('0' <= c && c <= '9') {
            assert(!is_digit_char(literal@[i as int]));
            return None;
        }
        let d = (c as u32 - '0' as u32) as i64;
        let ghost pre = cs@.subrange(0, i as int);
        let ghost next = cs@.subrange(0, i + 1);
        assert(next.drop_last() =~= pre);
        assert(digits_value(next) == digits_value(pre) * 10 + d);
        if !over {
            if acc > (i64::MAX - d) / 10 {
                assert(acc * 10 + d > i64::MAX) by (nonlinear_arith)
                    requires
                        acc > (i64::MAX - d) / 10,
                        0 <= d <= 9,
                ;
                over = true;
            } else {
                assert(acc * 10 + d <= i64::MAX) by (nonlinear_arith)
                    requires
                        acc <= (i64::MAX - d) / 10,
                        0 <= d <= 9,
                        acc >= 0,
                ;
                acc = acc * 10 + d;
            }
        }
        i = i + 1;
    }
    assert(cs@.subrange(0, cs@.len() as int) =~= cs@);
    if over {
        None
    } else {
        Some(acc)
    }
}

fn peek_error_message(expected: TokenType, got: TokenType) -> (r: String)
    ensures
        r@ == peek_error_msg(expected, got),
{
    let mut m = String::new();
    push_str(&mut m, "expected next token to be ");
    push_str(&mut m, expected.name());
    push_str(&mut m, ", got ");
    push_str(&mut m, got.name());
    push_str(&mut m, " instead");
    assert(m@ =~= peek_error_msg(expected, got));
    m
}

fn no_prefix_message(k: TokenType) -> (r: String)
    ensures
        r@ == no_prefix_msg(k),
{
    let mut m = String::new();
    push_str(&mut m, "no prefix parse function for ");
    push_str(&mut m, k.name());
    push_str(&mut m, " found");
    assert(m@ =~= no_prefix_msg(k));
    m
}

fn int_error_message(literal: &str) -> (r: String)
    ensures
        r@ == int_error_msg(literal@),
{
    let mut m = String::new();
    push_str(&mut m, "could not parse ");
    push_str(&mut m, literal);
    push_str(&mut m, " as integer");
    assert(m@ =~= int_error_msg(literal@));
    m
}

/// A parser over the tokens of one lexer: the current and the next token,
/// and the error messages recorded so far.
pub struct Parser {
    lexer: Lexer,
    errors: Vec<String>,
    cur_token: Token,
    peek_token: Token,
    stream: Ghost<Stream>,
    idx: Ghost<nat>,
}

impl Parser {
    /// The token stream this parser reads.
    pub closed spec fn stream(&self) -> Stream {
        self.stream@
    }

    /// The index of the current token and the errors recorded so far.
    pub closed spec fn state(&self) -> PState {
        PState { idx: self.idx@, errors: errors_view(self.errors@) }
    }

    pub closed spec fn wf(&self) -> bool {
        &&& self.lexer.wf()
        &&& self.lexer.source() == self.stream@.src
        &&& self.lexer.cursor() == cursor_after(self.stream@.src, self.stream@.start, self.idx@ + 2)
        &&& self.cur_token@ == tk(self.stream@, self.idx@)
        &&& self.peek_token@ == tk(self.stream@, self.idx@ + 1)
    }

    /// A parser whose current and next tokens are the first two that `lexer`
    /// produces.
    pub fn new(lexer: Lexer) -> (r: Self)
        requires
            lexer.wf(),
        ensures
            r.wf(),
            r.stream() == (Stream { src: lexer.source(), start: lexer.cursor() }),
            r.state() == (PState { idx: 0, errors: Seq::empty() }),
    {
        let ghost st = Stream { src: lexer.source(), start: lexer.cursor() };
        let mut lexer = lexer;
        let first = lexer.next_token();
        let second = lexer.next_token();
        assert(cursor_after(st.src, st.start, 1) == scan_after(st, 0));
        let p = Parser {
            lexer,
            errors: Vec::new(),
            cur_token: first,
            peek_token: second,
            stream: Ghost(st),
            idx: Ghost(0),
        };
        assert(errors_view(p.errors@) =~= Seq::empty());
        p
    }

    /// The error messages recorded so far, in order.
    pub fn errors(&self) -> (r: Vec<String>)
        ensures
            errors_view(r@) == self.state().errors,
    {
        let mut r: Vec<String> = Vec::new();
        let mut i: usize = 0;
        while i < self.errors.len()
            invariant
                i <= self.errors@.len(),
                errors_view(r@) == errors_view(self.errors@.subrange(0, i as int)),
            decreases self.errors@.len() - i,
        {
            let e = self.errors[i].clone();
            let ghost r0 = r@;
            r.push(e);
            assert(errors_view(r@) =~= errors_view(r0).push(e@));
            assert(errors_view(self.errors@.subrange(0, i + 1)) =~= errors_view(
                self.errors@.subrange(0, i as int),
            ).push(e@));
            i = i + 1;
        }
        assert(self.errors@.subrange(0, i as int) =~= self.errors@);
        r
    }

    fn record_error(&mut self, message: String)
        ensures
            final(self).state() == err(old(self).state(), message@),
            final(self).stream() == old(self).stream(),
            old(self).wf() ==> final(self).wf(),
    {
        self.errors.push(message);
        assert(errors_view(self.errors@) =~= errors_view(old(self).errors@).push(message@));
    }

    fn peek_error(&mut self, token_type: TokenType)
        ensures
            final(self).state() == err(
                old(self).state(),
                peek_error_msg(token_type, old(self).peek_token@.kind),
            ),
            final(self).stream() == old(self).stream(),
            old(self).wf() ==> final(self).wf(),
    {
        let message = peek_error_message(token_type, self.peek_token.token_type);
        self.record_error(message);
    }

    /// Moves one token forward.
    fn next_token(&mut self)
        requires
            old(self).wf(),
        ensures
            final(self).wf(),
            final(self).stream() == old(self).stream(),
            final(self).state() == at(old(self).state(), old(self).state().idx + 1),
    {
        let mut tok = self.lexer.next_token();
        core::mem::swap(&mut self.peek_token, &mut tok);
        self.cur_token = tok;
        self.idx = Ghost(self.idx@ + 1);
    }

    /// Moves onto the next token if it is of kind `token`; otherwise records
    /// an error and stays.
    fn expect_peek(&mut self, token: TokenType) -> (r: bool)
        requires
            old(self).wf(),
        ensures
            final(self).wf(),
            final(self).stream() == old(self).stream(),
            (r, final(self).state()) == expect(old(self).stream(), old(self).state(), token),
    {
        if self.peek_token_is(&token) {
            self.next_token();
            true
        } else {
            self.peek_error(token);
            false
        }
    }

    fn peek_token_is(&self, token: &TokenType) -> (r: bool)
        ensures
            r == (self.peek_token@.kind == *token),
    {
        self.peek_token.token_type == *token
    }

    fn cur_token_is(&self, token: TokenType) -> (r: bool)
        ensures
            r == (self.cur_token@.kind == token),
    {
        self.cur_token.token_type == token
    }
}

impl Parser {
    /// Parses statements up to the end of input. Statements that fail to
    /// parse are left out, their errors recorded, and parsing resumes after
    /// the next statement boundary.
    #[verifier::loop_isolation(false)]
    pub fn parse_program(&mut self) -> (r: Program)
        requires
            old(self).wf(),
        ensures
            final(self).wf(),
            final(self).stream() == old(self).stream(),
            (stmts_view(r@), final(self).state()) == program_stmts(
                old(self).stream(),
                Seq::empty(),
                old(self).state(),
            ),
    {
        let ghost st = self.stream();
        let mut program: Vec<StatementType> = Vec::new();
        let ghost target = program_stmts(st, Seq::empty(), self.state());
        proof {
            lemma_views_empty();
        }
        loop
            invariant
                self.wf(),
                self.stream() == st,
                program_stmts(st, stmts_view(program@), self.state()) == target,
            decreases rem(st, self.state().idx),
        {
            if self.cur_token_is(TokenType::Eof) {
                return program;
            }
            proof {
                lemma_live_index_bound(st.src, st.start, self.state().idx);
            }
            let ghost before = self.state();
            let s = self.parse_statement();
            let ghost acc0 = stmts_view(program@);
            match s {
                Some(x) => {
                    let ghost before = program@;
                    program.push(x);
                    proof {
                        lemma_stmts_view_push(before, x);
                    }
                },
                None => {
                    self.recover();
                },
            }
            self.next_token();
        }
    }

    /// A statement starting at the current token.
    fn parse_statement(&mut self) -> (r: Option<StatementType>)
        requires
            old(self).wf(),
        ensures
            final(self).wf(),
            final(self).stream() == old(self).stream(),
            final(self).state().idx >= old(self).state().idx,
            (opt_stmt(r), final(self).state()) == parse_statement(
                old(self).stream(),
                old(self).state(),
            ),
        decreases rem(old(self).stream(), old(self).state().idx), 8nat,
    {
        proof {
        }
        match self.cur_token.token_type {
            TokenType::Let => self.parse_let_statement(),
            TokenType::Return => self.parse_return_statement(),
            _ => self.parse_expression_statement(),
        }
    }

    fn parse_let_statement(&mut self) -> (r: Option<StatementType>)
        requires
            old(self).wf(),
            kind(old(self).stream(), old(self).state().idx) == TokenType::Let,
        ensures
            final(self).wf(),
            final(self).stream() == old(self).stream(),
            final(self).state().idx >= old(self).state().idx,
            (opt_stmt(r), final(self).state()) == parse_let(old(self).stream(), old(self).state()),
        decreases rem(old(self).stream(), old(self).state().idx), 7nat,
    {
        let ghost st = self.stream();
        proof {
            lemma_live_index_bound(st.src, st.start, self.state().idx);
        }
        let t = self.cur_token.duplicate();
        if !self.expect_peek(TokenType::Ident) {
            return None;
        }
        let name = Identifer::new(Box::new(self.cur_token.duplicate()));
        if !self.expect_peek(TokenType::Assign) {
            return None;
        }
        self.next_token();
        match self.parse_expression(LOWEST) {
            Some(value) => {
                if self.peek_token_is(&TokenType::Semicolon) {
                    self.next_token();
                }
                Some(stmt_let(t, name, value))
            },
            None => None,
        }
    }

    fn parse_return_statement(&mut self) -> (r: Option<StatementType>)
        requires
            old(self).wf(),
            kind(old(self).stream(), old(self).state().idx) == TokenType::Return,
        ensures
            final(self).wf(),
            final(self).stream() == old(self).stream(),
            final(self).state().idx >= old(self).state().idx,
            (opt_stmt(r), final(self).state()) == parse_return(
                old(self).stream(),
                old(self).state(),
            ),
        decreases rem(old(self).stream(), old(self).state().idx), 7nat,
    {
        let ghost st = self.stream();
        proof {
            lemma_live_index_bound(st.src, st.start, self.state().idx);
        }
        let t = self.cur_token.duplicate();
        self.next_token();
        match self.parse_expression(LOWEST) {
            Some(value) => {
                if self.peek_token_is(&TokenType::Semicolon) {
                    self.next_token();
                }
                Some(stmt_return(t, value))
            },
            None => None,
        }
    }

    fn parse_expression_statement(&mut self) -> (r: Option<StatementType>)
        requires
            old(self).wf(),
        ensures
            final(self).wf(),
            final(self).stream() == old(self).stream(),
            final(self).state().idx >= old(self).state().idx,
            (opt_stmt(r), final(self).state()) == parse_expression_statement(
                old(self).stream(),
                old(self).state(),
            ),
        decreases rem(old(self).stream(), old(self).state().idx), 7nat,
    {
        let t = self.cur_token.duplicate();
        match self.parse_expression(LOWEST) {
            Some(expression) => {
                if self.peek_token_is(&TokenType::Semicolon) {
                    self.next_token();
                }
Some(stmt_expression(t, expression))
            },
            None => None,
        }
    }

    /// After a failed statement, skips to the next statement boundary.
    #[verifier::loop_isolation(false)]
    fn recover(&mut self)
        requires
            old(self).wf(),
        ensures
            final(self).wf(),
            final(self).stream() == old(self).stream(),
            final(self).state().idx >= old(self).state().idx,
            final(self).state() == recover(old(self).stream(), old(self).state()),
    {
        let ghost st = self.stream();
        let ghost target = recover(st, self.state());
        loop
            invariant
                self.wf(),
                self.stream() == st,
                self.state().idx >= old(self).state().idx,
                recover(st, self.state()) == target,
            decreases rem(st, self.state().idx),
        {
            let k = self.cur_token.token_type;
            let n = self.peek_token.token_type;
            if k == TokenType::Semicolon || k == TokenType::Eof || n == TokenType::Let || n
                == TokenType::Return || n == TokenType::Rbrace {
                return;
            }
            proof {
                lemma_live_index_bound(st.src, st.start, self.state().idx);
            }
            self.next_token();
        }
    }

    /// An expression whose infix operators all bind tighter than
    /// `precedence`.
    fn parse_expression(&mut self, precedence: u8) -> (r: Option<ExpressionType>)
        requires
            old(self).wf(),
            precedence >= LOWEST,
        ensures
            final(self).wf(),
            final(self).stream() == old(self).stream(),
            final(self).state().idx >= old(self).state().idx,
            (opt_expr(r), final(self).state()) == parse_expression(
                old(self).stream(),
                precedence,
                old(self).state(),
            ),
        decreases rem(old(self).stream(), old(self).state().idx), 6nat,
    {
        match self.parse_prefix() {
            Some(left) => self.parse_infix_loop(precedence, left),
            None => None,
        }
    }

    #[verifier::loop_isolation(false)]
    fn parse_infix_loop(&mut self, precedence: u8, left: ExpressionType) -> (r: Option<
        ExpressionType,
    >)
        requires
            old(self).wf(),
            precedence >= LOWEST,
        ensures
            final(self).wf(),
            final(self).stream() == old(self).stream(),
            final(self).state().idx >= old(self).state().idx,
            (opt_expr(r), final(self).state()) == infix_loop(
                old(self).stream(),
                precedence,
                expr_view(left),
                old(self).state(),
            ),
        decreases rem(old(self).stream(), old(self).state().idx), 4nat,
    {
        let ghost st = self.stream();
        let ghost target = infix_loop(st, precedence, expr_view(left), self.state());
        let mut left = left;
        loop
            invariant
                self.wf(),
                self.stream() == st,
                self.state().idx >= old(self).state().idx,
                precedence >= LOWEST,
                infix_loop(st, precedence, expr_view(left), self.state()) == target,
            decreases rem(st, self.state().idx),
        {
            if !(precedence < crate::parser::precedence(self.peek_token.token_type)) {
                return Some(left);
            }
            proof {
                lemma_live_index_bound(st.src, st.start, self.state().idx + 1);
            }
            self.next_token();
            match self.parse_infix_expression(left) {
                Some(e) => {
                    left = e;
                },
                None => {
                    return None;
                },
            }
        }
    }

    /// The current token is an infix operator or the `(` of a call, and
    /// `left` is what stands before it.
    fn parse_infix_expression(&mut self, left: ExpressionType) -> (r: Option<ExpressionType>)
        requires
            old(self).wf(),
            precedence_of(kind(old(self).stream(), old(self).state().idx)) > LOWEST,
        ensures
            final(self).wf(),
            final(self).stream() == old(self).stream(),
            final(self).state().idx >= old(self).state().idx,
            (opt_expr(r), final(self).state()) == parse_infix(
                old(self).stream(),
                expr_view(left),
                old(self).state(),
            ),
        decreases rem(old(self).stream(), old(self).state().idx), 3nat,
    {
        let ghost st = self.stream();
        proof {
            lemma_live_index_bound(st.src, st.start, self.state().idx);
        }
        let t = self.cur_token.duplicate();
        if t.token_type == TokenType::Lparen {
            match self.parse_call_arguments() {
                Some(arguments) => Some(expr_call(t, left, arguments)),
                None => None,
            }
        } else {
            let p = crate::parser::precedence(t.token_type);
            let operator = t.literal.clone();
            self.next_token();
            match self.parse_expression(p) {
                Some(right) => Some(expr_infix(t, left, operator, right)),
                None => None,
            }
        }
    }

    /// The arguments of a call; the current token is its `(`.
    #[verifier::loop_isolation(false)]
    fn parse_call_arguments(&mut self) -> (r: Option<Vec<ExpressionType>>)
        requires
            old(self).wf(),
            kind(old(self).stream(), old(self).state().idx) == TokenType::Lparen,
        ensures
            final(self).wf(),
            final(self).stream() == old(self).stream(),
            final(self).state().idx >= old(self).state().idx,
            (opt_exprs(r), final(self).state()) == call_args(
                old(self).stream(),
                old(self).state(),
            ),
        decreases rem(old(self).stream(), old(self).state().idx), 2nat,
    {
        let ghost st = self.stream();
        let ghost ps = self.state();
        proof {
            lemma_live_index_bound(st.src, st.start, self.state().idx);
        }
        let mut args: Vec<ExpressionType> = Vec::new();
        if self.peek_token_is(&TokenType::Rparen) {
            self.next_token();
            proof {
                lemma_views_empty();
            }
            return Some(args);
        }
        self.next_token();
        match self.parse_expression(LOWEST) {
            Some(e) => {
                args.push(e);
                proof {
                    lemma_views_empty();
                    lemma_exprs_view_push(Seq::empty(), e);
                    assert(args@ =~= Seq::<ExpressionType>::empty().push(e));
                    assert(exprs_view(args@) =~= seq![expr_view(e)]);
                }
            },
            None => {
                return None;
            },
        }
        let ghost target = args_rest(st, exprs_view(args@), self.state());
        assert(target == call_args(st, ps));
        loop
            invariant
                self.wf(),
                self.stream() == st,
                self.state().idx > ps.idx,
                args_rest(st, exprs_view(args@), self.state()) == target,
            decreases rem(st, self.state().idx),
        {
            if self.peek_token_is(&TokenType::Comma) {
                proof {
                    lemma_live_index_bound(st.src, st.start, self.state().idx + 1);
                }
                self.next_token();
                self.next_token();
                match self.parse_expression(LOWEST) {
                    Some(e) => {
                        let ghost before = args@;
                        args.push(e);
                        proof {
                            lemma_exprs_view_push(before, e);
                        }
                    },
                    None => {
                        return None;
                    },
                }
            } else {
                if self.expect_peek(TokenType::Rparen) {
                    return Some(args);
                } else {
                    return None;
                }
            }
        }
    }

    /// The expression that starts at the current token.
    fn parse_prefix(&mut self) -> (r: Option<ExpressionType>)
        requires
            old(self).wf(),
        ensures
            final(self).wf(),
            final(self).stream() == old(self).stream(),
            final(self).state().idx >= old(self).state().idx,
            (opt_expr(r), final(self).state()) == parse_prefix(
                old(self).stream(),
                old(self).state(),
            ),
        decreases rem(old(self).stream(), old(self).state().idx), 5nat,
    {
        let ghost st = self.stream();
        let t = self.cur_token.duplicate();
        match t.token_type {
            TokenType::Ident => Some(expr_ident(Identifer::new(Box::new(t)))),
            TokenType::Int => match parse_integer(t.literal.as_str()) {
                Some(value) => Some(expr_int(t, value)),
                None => {
                    let m = int_error_message(t.literal.as_str());
                    self.record_error(m);
                    None
                },
            },
            TokenType::True => Some(expr_bool(t, true)),
            TokenType::False => Some(expr_bool(t, false)),
            TokenType::Bang | TokenType::Minus => {
                proof {
                    lemma_live_index_bound(st.src, st.start, self.state().idx);
                }
                let operator = t.literal.clone();
                self.next_token();
                match self.parse_expression(PREFIX) {
                    Some(right) => Some(expr_prefix(t, operator, right)),
                    None => None,
                }
            },
            TokenType::Lparen => {
                proof {
                    lemma_live_index_bound(st.src, st.start, self.state().idx);
                }
                self.next_token();
                match self.parse_expression(LOWEST) {
                    Some(e) => if self.expect_peek(TokenType::Rparen) {
                        Some(e)
                    } else {
                        None
                    },
                    None => None,
                }
            },
            TokenType::If => self.parse_if_expression(),
            TokenType::Function => self.parse_function_literal(),
            _ => {
                let m = no_prefix_message(t.token_type);
                self.record_error(m);
                None
            },
        }
    }

    fn parse_if_expression(&mut self) -> (r: Option<ExpressionType>)
        requires
            old(self).wf(),
            kind(old(self).stream(), old(self).state().idx) == TokenType::If,
        ensures
            final(self).wf(),
            final(self).stream() == old(self).stream(),
            final(self).state().idx >= old(self).state().idx,
            (opt_expr(r), final(self).state()) == parse_if(old(self).stream(), old(self).state()),
        decreases rem(old(self).stream(), old(self).state().idx), 4nat,
    {
        let ghost st = self.stream();
        proof {
            lemma_live_index_bound(st.src, st.start, self.state().idx);
        }
        let t = self.cur_token.duplicate();
        if !self.expect_peek(TokenType::Lparen) {
            return None;
        }
        self.next_token();
        let condition = match self.parse_expression(LOWEST) {
            Some(c) => c,
            None => {
                return None;
            },
        };
        if !self.expect_peek(TokenType::Rparen) {
            return None;
        }
        if !self.expect_peek(TokenType::Lbrace) {
            return None;
        }
        let consequence = self.parse_block_statement();
        if self.peek_token_is(&TokenType::Else) {
            self.next_token();
            if !self.expect_peek(TokenType::Lbrace) {
                return None;
            }
            let alternative = self.parse_block_statement();
            Some(expr_if(t, condition, consequence, Some(alternative)))
        } else {
            Some(expr_if(t, condition, consequence, None))
        }
    }

    fn parse_function_literal(&mut self) -> (r: Option<ExpressionType>)
        requires
            old(self).wf(),
            kind(old(self).stream(), old(self).state().idx) == TokenType::Function,
        ensures
            final(self).wf(),
            final(self).stream() == old(self).stream(),
            final(self).state().idx >= old(self).state().idx,
            (opt_expr(r), final(self).state()) == parse_function(
                old(self).stream(),
                old(self).state(),
            ),
        decreases rem(old(self).stream(), old(self).state().idx), 4nat,
    {
        let ghost st = self.stream();
        proof {
            lemma_live_index_bound(st.src, st.start, self.state().idx);
        }
        let t = self.cur_token.duplicate();
        if !self.expect_peek(TokenType::Lparen) {
            return None;
        }
        let parameters = match self.parse_function_parameters() {
            Some(p) => p,
            None => {
                return None;
            },
        };
        if !self.expect_peek(TokenType::Lbrace) {
            return None;
        }
        let body = self.parse_block_statement();
        Some(expr_function(t, parameters, body))
    }

    /// A parameter list; the current token is its `(`.
    #[verifier::loop_isolation(false)]
    fn parse_function_parameters(&mut self) -> (r: Option<Vec<Identifer>>)
        requires
            old(self).wf(),
        ensures
            final(self).wf(),
            final(self).stream() == old(self).stream(),
            final(self).state().idx >= old(self).state().idx,
            (opt_idents(r), final(self).state()) == parse_params(
                old(self).stream(),
                old(self).state(),
            ),
    {
        let ghost st = self.stream();
        let ghost ps = self.state();
        let mut params: Vec<Identifer> = Vec::new();
        if self.peek_token_is(&TokenType::Rparen) {
            self.next_token();
            assert(idents_view(params@) =~= Seq::empty());
            return Some(params);
        }
        if !self.expect_peek(TokenType::Ident) {
            return None;
        }
        params.push(Identifer::new(Box::new(self.cur_token.duplicate())));
        assert(idents_view(params@) =~= seq![ident_view(params@[0])]);
        let ghost target = params_rest(st, idents_view(params@), self.state());
        loop
            invariant
                self.wf(),
                self.stream() == st,
                self.state().idx > ps.idx,
                params_rest(st, idents_view(params@), self.state()) == target,
            decreases rem(st, self.state().idx),
        {
            if self.peek_token_is(&TokenType::Comma) {
                proof {
                    lemma_live_index_bound(st.src, st.start, self.state().idx + 1);
                }
                self.next_token();
                if !self.expect_peek(TokenType::Ident) {
                    return None;
                }
                let ghost before = params@;
                params.push(Identifer::new(Box::new(self.cur_token.duplicate())));
                assert(idents_view(params@) =~= idents_view(before).push(
                    ident_view(params@.last()),
                ));
            } else {
                if self.expect_peek(TokenType::Rparen) {
                    return Some(params);
                } else {
                    return None;
                }
            }
        }
    }

    /// A block; the current token is its `{`.
    #[verifier::loop_isolation(false)]
    fn parse_block_statement(&mut self) -> (r: BlockStatement)
        requires
            old(self).wf(),
            kind(old(self).stream(), old(self).state().idx) == TokenType::Lbrace,
        ensures
            final(self).wf(),
            final(self).stream() == old(self).stream(),
            final(self).state().idx >= old(self).state().idx,
            (block_view(r), final(self).state()) == parse_block(
                old(self).stream(),
                old(self).state(),
            ),
        decreases rem(old(self).stream(), old(self).state().idx), 10nat,
    {
        let ghost st = self.stream();
        let ghost ps = self.state();
        proof {
            lemma_live_index_bound(st.src, st.start, self.state().idx);
        }
        let t = self.cur_token.duplicate();
        let mut statements: Vec<StatementType> = Vec::new();
        self.next_token();
        proof {
            lemma_views_empty();
        }
        let ghost target = block_stmts(st, Seq::empty(), self.state());
        loop
            invariant
                self.wf(),
                self.stream() == st,
                self.state().idx > ps.idx,
                block_stmts(st, stmts_view(statements@), self.state()) == target,
                target.1 == parse_block(st, ps).1,
                target.0 == parse_block(st, ps).0.statements,
                t@ == tk(st, ps.idx),
            decreases rem(st, self.state().idx),
        {
            if self.cur_token_is(TokenType::Rbrace) || self.cur_token_is(TokenType::Eof) {
                return block(t, statements);
            }
            proof {
                lemma_live_index_bound(st.src, st.start, self.state().idx);
            }
            let s = self.parse_statement();
            match s {
                Some(x) => {
                    let ghost before = statements@;
                    statements.push(x);
                    proof {
                        lemma_stmts_view_push(before, x);
                    }
                },
                None => {
                    self.recover();
                },
            }
            self.next_token();
        }
    }
}

/// The position after one more scanning step than `cursor_after(.., n)`.
pub open spec fn scan_after(st: Stream, n: nat) -> nat {
    crate::lexer::scan(st.src, cursor_after(st.src, st.start, n)).1
}


} // verus!

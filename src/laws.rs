//! Round trip of arithmetic expressions: rendering an expression built from
//! integer literals and `+ - * /`, then scanning and parsing the text, gives
//! the same tree back.
use vstd::prelude::*;
use crate::ast::{expr_string, ExprView, StmtView};
use crate::lexer::{
    cursor_after, digit_char, letter_char, number_end, scan, single_kind, skip_spaces, space_char,
    token_at,
};
use crate::parser::{
    after_statement, at, infix_loop, int_value, kind, live, parse_expression,
    parse_infix, parse_prefix, parse_program_spec, parse_statement,
    program_stmts, rem, tk, PState, Stream, LOWEST,
};
use crate::token::{TokenType, TokenView};

verus! {

pub open spec fn arith_op(c: char) -> bool {
    c == '+' || c == '-' || c == '*' || c == '/'
}

/// An expression built only from integer literals and the four arithmetic
/// operators, each node holding the token it is scanned from.
pub open spec fn arith(e: ExprView) -> bool
    decreases e,
{
    match e {
        ExprView::Int { token, value } => token.kind == TokenType::Int && int_value(token.literal)
            == Some(value),
        ExprView::Infix { token, left, operator, right } => {
            &&& token.literal.len() == 1
            &&& arith_op(token.literal[0])
            &&& token.kind == single_kind(token.literal[0])
            &&& operator == token.literal
            &&& arith(*left)
            &&& arith(*right)
        },
        _ => false,
    }
}

pub open spec fn lparen_token() -> TokenView {
    TokenView { kind: TokenType::Lparen, literal: seq!['('] }
}

pub open spec fn rparen_token() -> TokenView {
    TokenView { kind: TokenType::Rparen, literal: seq![')'] }
}

/// The tokens that the rendering of an arithmetic expression scans to.
pub open spec fn arith_tokens(e: ExprView) -> Seq<TokenView>
    decreases e,
{
    match e {
        ExprView::Int { token, .. } => seq![token],
        ExprView::Infix { token, left, right, .. } => seq![lparen_token()] + arith_tokens(*left)
            + seq![token] + arith_tokens(*right) + seq![rparen_token()],
        _ => Seq::empty(),
    }
}

/// `r` stands in `s` at position `p`.
pub open spec fn occurs_at(s: Seq<char>, p: int, r: Seq<char>) -> bool {
    &&& 0 <= p
    &&& p + r.len() <= s.len()
    &&& forall|j: int| 0 <= j < r.len() ==> s[p + j] == #[trigger] r[j]
}

/// Scanning `s` from position `p` yields exactly `toks` and stops at `q`.
pub open spec fn lexes_to(s: Seq<char>, p: nat, toks: Seq<TokenView>, q: nat) -> bool {
    &&& cursor_after(s, p, toks.len()) == q
    &&& forall|k: int| 0 <= k < toks.len() ==> token_at(s, p, k as nat) == #[trigger] toks[k]
}

proof fn lemma_skip_spaces_to(s: Seq<char>, p: nat, q: nat)
    requires
        p <= q < s.len(),
        forall|j: int| p <= j < q ==> space_char(#[trigger] s[j]),
        !space_char(s[q as int]),
    ensures
        skip_spaces(s, p) == q,
    decreases q - p,
{
    if p < q {
        lemma_skip_spaces_to(s, p + 1, q);
    }
}

proof fn lemma_number_end_to(s: Seq<char>, p: nat, q: nat)
    requires
        p <= q <= s.len(),
        forall|j: int| p <= j < q ==> digit_char(#[trigger] s[j]),
        q == s.len() || !digit_char(s[q as int]),
    ensures
        number_end(s, p) == q,
    decreases q - p,
{
    if p < q {
        lemma_number_end_to(s, p + 1, q);
    }
}

proof fn lemma_cursor_shift(s: Seq<char>, p: nat, a: nat, b: nat)
    ensures
        cursor_after(s, p, a + b) == cursor_after(s, cursor_after(s, p, a), b),
    decreases b,
{
    if b > 0 {
        lemma_cursor_shift(s, p, a, (b - 1) as nat);
        assert(cursor_after(s, p, a + b) == scan(s, cursor_after(s, p, (a + b - 1) as nat)).1);
    }
}

proof fn lemma_lexes_one(s: Seq<char>, p: nat, t: TokenView, q: nat)
    requires
        scan(s, p) == (t, q),
    ensures
        lexes_to(s, p, seq![t], q),
{
    assert(cursor_after(s, p, 1) == scan(s, cursor_after(s, p, 0)).1);
}

proof fn lemma_lexes_concat(
    s: Seq<char>,
    p: nat,
    t1: Seq<TokenView>,
    q1: nat,
    t2: Seq<TokenView>,
    q2: nat,
)
    requires
        lexes_to(s, p, t1, q1),
        lexes_to(s, q1, t2, q2),
    ensures
        lexes_to(s, p, t1 + t2, q2),
{
    lemma_cursor_shift(s, p, t1.len(), t2.len());
    assert forall|k: int| 0 <= k < (t1 + t2).len() implies token_at(s, p, k as nat) == #[trigger] (
    t1 + t2)[k] by {
        if k >= t1.len() {
            let k2 = (k - t1.len()) as nat;
            lemma_cursor_shift(s, p, t1.len(), k2);
            assert(token_at(s, q1, k2) == t2[k2 as int]);
        }
    }
}

proof fn lemma_arith_shape(e: ExprView)
    requires
        arith(e),
    ensures
        expr_string(e).len() >= 1,
        arith_tokens(e).len() >= 1,
        expr_string(e)[0] == '(' || digit_char(expr_string(e)[0]),
        arith_tokens(e)[0] == (match e {
            ExprView::Int { token, .. } => token,
            _ => lparen_token(),
        }),
{
    reveal_strlit("(");
    match e {
        ExprView::Int { token, value } => {
            assert(digit_char(token.literal[0]));
        },
        _ => {},
    }
}

/// Scanning the rendering of `e`, standing in `s` at `p2` after spaces that
/// start at `p`, yields the tokens of `e`.
proof fn lemma_lex_arith(s: Seq<char>, p: nat, p2: nat, e: ExprView)
    requires
        arith(e),
        p <= p2,
        forall|j: int| p <= j < p2 ==> space_char(#[trigger] s[j]),
        occurs_at(s, p2 as int, expr_string(e)),
        p2 + expr_string(e).len() == s.len() || !digit_char(s[p2 + expr_string(e).len() as int]),
    ensures
        lexes_to(s, p, arith_tokens(e), p2 + expr_string(e).len()),
    decreases e,
{
    reveal(scan);
    reveal_strlit("(");
    reveal_strlit(")");
    reveal_strlit(" ");
    lemma_arith_shape(e);
    let r = expr_string(e);
    let q: int = p2 as int;
    assert(s[q + 0] == r[0]);
    lemma_skip_spaces_to(s, p, p2);
    match e {
        ExprView::Int { token, value } => {
            let n: int = token.literal.len() as int;
            assert forall|j: int| q <= j < q + n implies digit_char(#[trigger] s[j]) by {
                assert(s[q + (j - q)] == r[j - q]);
            }
            lemma_number_end_to(s, p2, (q + n) as nat);
            assert(s.subrange(q, q + n) =~= token.literal) by {
                assert forall|j: int| 0 <= j < n implies s.subrange(q, q + n)[j]
                    == token.literal[j] by {
                    assert(s[q + j] == r[j]);
                }
            }
            lemma_lexes_one(s, p, token, (q + n) as nat);
        },
        ExprView::Infix { token, left, operator, right } => {
            let rl = expr_string(*left);
            let rr = expr_string(*right);
            let c = token.literal[0];
            assert(r == seq!['('] + rl + seq![' '] + operator + seq![' '] + rr + seq![')']);
            let a: int = q + 1;
            let b: int = a + rl.len();
            let d: int = b + 3;
            let f: int = d + rr.len();
            // "(" at p2
            assert(scan(s, p) == (lparen_token(), a as nat));
            lemma_lexes_one(s, p, lparen_token(), a as nat);
            // the left operand at a
            assert(occurs_at(s, a, rl)) by {
                assert forall|j: int| 0 <= j < rl.len() implies s[a + j] == #[trigger] rl[j] by {
                    assert(s[q + (1 + j)] == r[1 + j]);
                }
            }
            assert(s[b] == ' ') by {
                assert(s[q + (1 + rl.len())] == r[1 + rl.len() as int]);
            }
            lemma_lex_arith(s, a as nat, a as nat, *left);
            // the operator after one space
            assert(s[b + 1] == c) by {
                assert(s[q + (2 + rl.len())] == r[2 + rl.len() as int]);
            }
            assert(s[b + 2] == ' ') by {
                assert(s[q + (3 + rl.len())] == r[3 + rl.len() as int]);
            }
            lemma_skip_spaces_to(s, b as nat, (b + 1) as nat);
            assert(s.subrange(b + 1, b + 2) =~= seq![c]);
            assert(token.literal =~= seq![c]);
            assert(scan(s, b as nat) == (token, (b + 2) as nat));
            lemma_lexes_one(s, b as nat, token, (b + 2) as nat);
            // the right operand after one more space
            assert(occurs_at(s, d, rr)) by {
                assert forall|j: int| 0 <= j < rr.len() implies s[d + j] == #[trigger] rr[j] by {
                    assert(s[q + (4 + rl.len() + j)] == r[4 + rl.len() + j]);
                }
            }
            assert(s[f] == ')') by {
                assert(s[q + (4 + rl.len() + rr.len())] == r[4 + rl.len() + rr.len() as int]);
            }
            lemma_lex_arith(s, (b + 2) as nat, d as nat, *right);
            // ")" last
            lemma_skip_spaces_to(s, f as nat, f as nat);
            assert(scan(s, f as nat) == (rparen_token(), (f + 1) as nat));
            lemma_lexes_one(s, f as nat, rparen_token(), (f + 1) as nat);
            lemma_lexes_concat(s, p, seq![lparen_token()], a as nat, arith_tokens(*left), b as nat);
            lemma_lexes_concat(
                s,
                p,
                seq![lparen_token()] + arith_tokens(*left),
                b as nat,
                seq![token],
                (b + 2) as nat,
            );
            lemma_lexes_concat(
                s,
                p,
                seq![lparen_token()] + arith_tokens(*left) + seq![token],
                (b + 2) as nat,
                arith_tokens(*right),
                f as nat,
            );
            lemma_lexes_concat(
                s,
                p,
                seq![lparen_token()] + arith_tokens(*left) + seq![token] + arith_tokens(*right),
                f as nat,
                seq![rparen_token()],
                (f + 1) as nat,
            );
        },
        _ => {},
    }
}

/// The tokens `toks` stand in the stream from index `i` on.
pub open spec fn tokens_at(st: Stream, i: nat, toks: Seq<TokenView>) -> bool {
    forall|k: int| 0 <= k < toks.len() ==> tk(st, (i + k) as nat) == #[trigger] toks[k]
}

/// Parsing the tokens of an arithmetic expression gives the expression back,
/// with the parser on its last token: as a prefix unit, and as a whole
/// expression when the token after it binds no tighter than `prec`.
proof fn lemma_parse_arith(st: Stream, ps: PState, prec: u8, e: ExprView)
    requires
        arith(e),
        tokens_at(st, ps.idx, arith_tokens(e)),
    ensures
        arith_tokens(e).len() >= 1,
        parse_prefix(st, ps) == (Some(e), at(ps, (ps.idx + arith_tokens(e).len() - 1) as nat)),
        crate::parser::precedence_of(kind(st, ps.idx + arith_tokens(e).len())) <= prec
            ==> parse_expression(st, prec, ps) == (
            Some(e),
            at(ps, (ps.idx + arith_tokens(e).len() - 1) as nat),
        ),
    decreases e,
{
    lemma_arith_shape(e);
    let i = ps.idx;
    let toks = arith_tokens(e);
    let m = toks.len();
    assert(tk(st, (i + 0) as nat) == toks[0]);
    match e {
        ExprView::Int { token, value } => {
            assert(at(ps, i) == ps);
        },
        ExprView::Infix { token, left, operator, right } => {
            let tl = arith_tokens(*left);
            let tr = arith_tokens(*right);
            let n = tl.len();
            let o = tr.len();
            assert(toks == seq![lparen_token()] + tl + seq![token] + tr + seq![rparen_token()]);
            assert(tokens_at(st, i + 1, tl)) by {
                assert forall|k: int| 0 <= k < tl.len() implies tk(st, (i + 1 + k) as nat)
                    == #[trigger] tl[k] by {
                    assert(tk(st, (i + (1 + k)) as nat) == toks[1 + k]);
                }
            }
            assert(tk(st, i + 1 + n) == token) by {
                assert(tk(st, (i + (1 + n)) as nat) == toks[1 + n as int]);
            }
            assert(tokens_at(st, i + 2 + n, tr)) by {
                assert forall|k: int| 0 <= k < tr.len() implies tk(st, (i + 2 + n + k) as nat)
                    == #[trigger] tr[k] by {
                    assert(tk(st, (i + (2 + n + k)) as nat) == toks[2 + n + k]);
                }
            }
            assert(tk(st, i + 2 + n + o) == rparen_token()) by {
                assert(tk(st, (i + (2 + n + o)) as nat) == toks[2 + n + o as int]);
            }
            crate::lexer::lemma_live_index_bound(st.src, st.start, i + 1 + n);
            let op_prec = crate::parser::precedence_of(token.kind);
            lemma_parse_arith(st, at(ps, i + 1), LOWEST, *left);
            lemma_parse_arith(st, at(ps, i + 2 + n), op_prec, *right);
            let p2 = at(ps, i + 1 + n + o);
            assert(crate::parser::parse_infix(st, *left, at(ps, i + 1 + n)) == (Some(e), p2));
            assert(infix_loop(st, LOWEST, e, p2) == (Some(e), p2));
            assert(infix_loop(st, LOWEST, *left, at(ps, i + n)) == (Some(e), p2));
            assert(parse_expression(st, LOWEST, at(ps, i + 1)) == (Some(e), p2));
        },
        _ => {},
    }
}

/// Rendering an expression built from integer literals and `+ - * /` and
/// parsing the text back gives one expression statement that holds the same
/// expression, and no errors: precedence and associativity survive the
/// fully parenthesised rendering.
pub proof fn lemma_round_trip(e: ExprView)
    requires
        arith(e),
    ensures
        parse_program_spec(Stream { src: expr_string(e), start: 0 }).0 == seq![
            StmtView::Expression { token: arith_tokens(e)[0], expression: e },
        ],
        parse_program_spec(Stream { src: expr_string(e), start: 0 }).1.errors == Seq::<
            Seq<char>,
        >::empty(),
{
    let s = expr_string(e);
    let st = Stream { src: s, start: 0 };
    let toks = arith_tokens(e);
    let m = toks.len();
    let ps0 = PState { idx: 0, errors: Seq::empty() };
    lemma_arith_shape(e);
    lemma_lex_arith(s, 0, 0, e);
    assert(tokens_at(st, 0, toks)) by {
        assert forall|k: int| 0 <= k < toks.len() implies tk(st, (0 + k) as nat)
            == #[trigger] toks[k] by {
            assert(token_at(s, 0, k as nat) == toks[k]);
        }
    }
    assert(kind(st, m) == TokenType::Eof) by {
        reveal(scan);
    }
    assert(tk(st, 0) == toks[0]);
    crate::lexer::lemma_live_index_bound(s, 0, 0);
    lemma_parse_arith(st, ps0, LOWEST, e);
    let stmt = StmtView::Expression { token: toks[0], expression: e };
    assert(crate::parser::parse_statement(st, ps0) == (Some(stmt), at(ps0, (m - 1) as nat)));
    reveal_with_fuel(crate::parser::program_stmts, 2);
    assert(at(at(ps0, (m - 1) as nat), (m - 1 + 1) as nat) == at(ps0, m));
}

// ---------------------------------------------------------------------------
// What the parser builds
// ---------------------------------------------------------------------------

/// An expression of integer literals and `+ - * /` only, whatever its tokens.
pub open spec fn arith_shape(e: ExprView) -> bool
    decreases e,
{
    match e {
        ExprView::Int { .. } => true,
        ExprView::Infix { left, operator, right, .. } => operator.len() == 1 && arith_op(operator[0])
            && arith_shape(*left) && arith_shape(*right),
        _ => false,
    }
}

/// A one-character operator token has the category of its character.
pub open spec fn op_token_ok(t: TokenView) -> bool {
    t.literal.len() == 1 && arith_op(t.literal[0]) ==> t.kind == single_kind(t.literal[0])
}

/// Integer literals hold the value of their digits, and infix nodes hold
/// their operator token; other nodes are not looked into.
pub open spec fn sound(e: ExprView) -> bool
    decreases e,
{
    match e {
        ExprView::Int { token, value } => token.kind == TokenType::Int && int_value(token.literal)
            == Some(value),
        ExprView::Infix { token, left, operator, right } => operator == token.literal
            && op_token_ok(token) && sound(*left) && sound(*right),
        _ => true,
    }
}

proof fn lemma_scan_op(s: Seq<char>, p: nat)
    ensures
        op_token_ok(scan(s, p).0),
{
    reveal(scan);
    let q = skip_spaces(s, p);
    if q < s.len() {
        let c = s[q as int];
        if letter_char(c) {
            let e = crate::lexer::word_end(s, q);
            lemma_word_end_at_least_one(s, q);
            assert(s.subrange(q as int, e as int)[0] == c);
        } else if digit_char(c) {
            let e = number_end(s, q);
            lemma_number_end_at_least_one(s, q);
            assert(s.subrange(q as int, e as int)[0] == c);
        }
    }
}

proof fn lemma_word_end_at_least_one(s: Seq<char>, q: nat)
    requires
        q < s.len(),
        letter_char(s[q as int]),
    ensures
        crate::lexer::word_end(s, q) > q,
        crate::lexer::word_end(s, q) <= s.len(),
{
    lemma_word_end_le(s, q + 1);
}

proof fn lemma_word_end_le(s: Seq<char>, p: nat)
    requires
        p <= s.len(),
    ensures
        p <= crate::lexer::word_end(s, p) <= s.len(),
    decreases s.len() - p,
{
    if p < s.len() {
        lemma_word_end_le(s, p + 1);
    }
}

proof fn lemma_number_end_at_least_one(s: Seq<char>, q: nat)
    requires
        q < s.len(),
        digit_char(s[q as int]),
    ensures
        number_end(s, q) > q,
        number_end(s, q) <= s.len(),
{
    lemma_number_end_le(s, q + 1);
}

proof fn lemma_number_end_le(s: Seq<char>, p: nat)
    requires
        p <= s.len(),
    ensures
        p <= number_end(s, p) <= s.len(),
    decreases s.len() - p,
{
    if p < s.len() {
        lemma_number_end_le(s, p + 1);
    }
}

proof fn lemma_tk_op(st: Stream, i: nat)
    ensures
        op_token_ok(tk(st, i)),
{
    lemma_scan_op(st.src, cursor_after(st.src, st.start, i));
}

proof fn lemma_sound_expression(st: Stream, prec: u8, ps: PState)
    ensures
        parse_expression(st, prec, ps).0 matches Some(e) ==> sound(e),
    decreases rem(st, ps.idx), 6nat,
{
    let (l, p1) = parse_prefix(st, ps);
    lemma_sound_prefix(st, ps);
    if let Some(e) = l {
        if p1.idx >= ps.idx {
            lemma_sound_loop(st, prec, e, p1);
        }
    }
}

proof fn lemma_sound_loop(st: Stream, prec: u8, left: ExprView, ps: PState)
    requires
        sound(left),
    ensures
        infix_loop(st, prec, left, ps).0 matches Some(e) ==> sound(e),
    decreases rem(st, ps.idx), 4nat,
{
    if crate::parser::precedence_of(kind(st, ps.idx + 1)) > prec && live(st, ps.idx) {
        let (r, p2) = parse_infix(st, left, at(ps, ps.idx + 1));
        lemma_sound_infix(st, left, at(ps, ps.idx + 1));
        if let Some(e) = r {
            if p2.idx > ps.idx {
                lemma_sound_loop(st, prec, e, p2);
            }
        }
    }
}

proof fn lemma_sound_infix(st: Stream, left: ExprView, ps: PState)
    requires
        sound(left),
    ensures
        parse_infix(st, left, ps).0 matches Some(e) ==> sound(e),
    decreases rem(st, ps.idx), 3nat,
{
    let t = tk(st, ps.idx);
    lemma_tk_op(st, ps.idx);
    if t.kind != TokenType::Lparen && live(st, ps.idx) {
        lemma_sound_expression(st, crate::parser::precedence_of(t.kind), at(ps, ps.idx + 1));
    }
}

proof fn lemma_sound_prefix(st: Stream, ps: PState)
    ensures
        parse_prefix(st, ps).0 matches Some(e) ==> sound(e),
    decreases rem(st, ps.idx), 5nat,
{
    let t = tk(st, ps.idx);
    if (t.kind == TokenType::Lparen || t.kind == TokenType::Bang || t.kind == TokenType::Minus)
        && live(st, ps.idx) {
        lemma_sound_expression(
            st,
            if t.kind == TokenType::Lparen {
                LOWEST
            } else {
                crate::parser::PREFIX
            },
            at(ps, ps.idx + 1),
        );
    }
}

/// Every expression statement that a parse keeps holds a `sound` expression.
pub open spec fn statements_sound(v: Seq<StmtView>) -> bool {
    forall|k: int|
        0 <= k < v.len() ==> (#[trigger] v[k] matches StmtView::Expression { expression, .. }
            ==> sound(expression))
}

proof fn lemma_sound_program(st: Stream, acc: Seq<StmtView>, ps: PState)
    requires
        statements_sound(acc),
    ensures
        statements_sound(program_stmts(st, acc, ps).0),
    decreases rem(st, ps.idx),
{
    if !(kind(st, ps.idx) == TokenType::Eof || !live(st, ps.idx)) {
        let (x, p1) = parse_statement(st, ps);
        let (acc2, p2) = after_statement(st, x, acc, p1);
        if kind(st, ps.idx) != TokenType::Let && kind(st, ps.idx) != TokenType::Return {
            lemma_sound_expression(st, LOWEST, ps);
        }
        assert(statements_sound(acc2));
        if p2.idx >= ps.idx {
            lemma_sound_program(st, acc2, at(p2, p2.idx + 1));
        }
    }
}

proof fn lemma_shape_sound_arith(e: ExprView)
    requires
        arith_shape(e),
        sound(e),
    ensures
        arith(e),
    decreases e,
{
    if let ExprView::Infix { left, right, .. } = e {
        lemma_shape_sound_arith(*left);
        lemma_shape_sound_arith(*right);
    }
}

/// Any expression statement of a parsed program that is built from integer
/// literals and `+ - * /` renders to text that parses back to one expression
/// statement holding the same expression, with no errors.
pub proof fn lemma_parsed_round_trip(src: Seq<char>, k: int)
    requires
        0 <= k < parse_program_spec(Stream { src, start: 0 }).0.len(),
        parse_program_spec(Stream { src, start: 0 }).0[k] matches StmtView::Expression {
            expression,
            ..
        } && arith_shape(expression),
    ensures
        parse_program_spec(Stream { src, start: 0 }).0[k] matches StmtView::Expression {
            expression,
            ..
        } && parse_program_spec(Stream { src: expr_string(expression), start: 0 }).0 == seq![
            StmtView::Expression { token: arith_tokens(expression)[0], expression },
        ] && parse_program_spec(Stream { src: expr_string(expression), start: 0 }).1.errors
            == Seq::<Seq<char>>::empty(),
{
    let st = Stream { src, start: 0 };
    lemma_sound_program(st, Seq::empty(), PState { idx: 0, errors: Seq::empty() });
    if let StmtView::Expression { expression, .. } = parse_program_spec(st).0[k] {
        lemma_shape_sound_arith(expression);
        lemma_round_trip(expression);
    }
}

} // verus!

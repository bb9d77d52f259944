//! The syntax tree: programs, statements and expressions as closed sum
//! types, each with a mathematical view and a canonical rendering.
use vstd::prelude::*;
use crate::token::{Token, TokenView};
use crate::text::push_str;

verus! {

// ---------------------------------------------------------------------------
// Mathematical model of the tree
// ---------------------------------------------------------------------------

pub struct IdentView {
    pub token: TokenView,
    pub value: Seq<char>,
}

pub struct BlockView {
    pub token: TokenView,
    pub statements: Seq<StmtView>,
}

pub enum ExprView {
    Ident(IdentView),
    Int { token: TokenView, value: i64 },
    Bool { token: TokenView, value: bool },
    Prefix { token: TokenView, operator: Seq<char>, right: Box<ExprView> },
    Infix { token: TokenView, left: Box<ExprView>, operator: Seq<char>, right: Box<ExprView> },
    If {
        token: TokenView,
        condition: Box<ExprView>,
        consequence: BlockView,
        alternative: Option<BlockView>,
    },
    Function { token: TokenView, parameters: Seq<IdentView>, body: BlockView },
    Call { token: TokenView, function: Box<ExprView>, arguments: Seq<ExprView> },
}

pub enum StmtView {
    Let { token: TokenView, name: IdentView, value: ExprView },
    Return { token: TokenView, value: ExprView },
    Expression { token: TokenView, expression: ExprView },
}

// ---------------------------------------------------------------------------
// The tree itself
// ---------------------------------------------------------------------------

/// A parsed program: its statements in source order.
pub type Program = Vec<StatementType>;

/// An identifier: its token and its name.
pub struct Identifer {
    pub token: Box<Token>,
    pub value: String,
}

pub struct IntegerLiteral {
    pub token: Box<Token>,
    pub value: i64,
}

pub struct BooleanLiteral {
    pub token: Box<Token>,
    pub value: bool,
}

/// `<operator><right>`, for `!` and `-`.
pub struct PrefixExpression {
    pub token: Box<Token>,
    pub operator: String,
    pub right: Box<ExpressionType>,
}

/// `<left> <operator> <right>`.
pub struct InfixExpression {
    pub token: Box<Token>,
    pub left: Box<ExpressionType>,
    pub operator: String,
    pub right: Box<ExpressionType>,
}

/// `if (<condition>) { ... } else { ... }`, the `else` part optional.
pub struct IfExpression {
    pub token: Box<Token>,
    pub condition: Box<ExpressionType>,
    pub consequence: BlockStatement,
    pub alternative: Option<BlockStatement>,
}

/// `fn (<parameters>) { ... }`.
pub struct FunctionLiteral {
    pub token: Box<Token>,
    pub parameters: Vec<Identifer>,
    pub body: BlockStatement,
}

/// `<function>(<arguments>)`.
pub struct CallExpression {
    pub token: Box<Token>,
    pub function: Box<ExpressionType>,
    pub arguments: Vec<ExpressionType>,
}

/// `{ <statements> }`.
pub struct BlockStatement {
    pub token: Box<Token>,
    pub statements: Vec<StatementType>,
}

pub enum ExpressionType {
    Identifer(Identifer),
    IntegerLiteral(IntegerLiteral),
    Boolean(BooleanLiteral),
    Prefix(PrefixExpression),
    Infix(InfixExpression),
    If(IfExpression),
    Function(FunctionLiteral),
    Call(CallExpression),
}

/// `let <name> = <value>;`
pub struct LetStatement {
    pub token: Box<Token>,
    pub name: Identifer,
    pub value: ExpressionType,
}

/// `return <value>;`
pub struct ReturnStatement {
    pub token: Box<Token>,
    pub value: ExpressionType,
}

/// An expression standing alone as a statement, as in `x + 10;`.
pub struct ExpressionStatement {
    pub token: Box<Token>,
    pub expression: ExpressionType,
}

pub enum StatementType {
    LetStatement(LetStatement),
    ReturnStatement(ReturnStatement),
    ExpressionStatement(ExpressionStatement),
}

// ---------------------------------------------------------------------------
// Views
// ---------------------------------------------------------------------------

pub open spec fn ident_view(i: Identifer) -> IdentView {
    IdentView { token: i.token@, value: i.value@ }
}

pub open spec fn idents_view(v: Seq<Identifer>) -> Seq<IdentView> {
    v.map_values(|i: Identifer| ident_view(i))
}

pub closed spec fn expr_view(e: ExpressionType) -> ExprView
    decreases e,
{
    match e {
        ExpressionType::Identifer(i) => ExprView::Ident(ident_view(i)),
        ExpressionType::IntegerLiteral(n) => ExprView::Int { token: n.token@, value: n.value },
        ExpressionType::Boolean(b) => ExprView::Bool { token: b.token@, value: b.value },
        ExpressionType::Prefix(p) => ExprView::Prefix {
            token: p.token@,
            operator: p.operator@,
            right: Box::new(expr_view(*p.right)),
        },
        ExpressionType::Infix(x) => ExprView::Infix {
            token: x.token@,
            left: Box::new(expr_view(*x.left)),
            operator: x.operator@,
            right: Box::new(expr_view(*x.right)),
        },
        ExpressionType::If(x) => ExprView::If {
            token: x.token@,
            condition: Box::new(expr_view(*x.condition)),
            consequence: block_view(x.consequence),
            alternative: match x.alternative {
                Some(b) => Some(block_view(b)),
                None => None,
            },
        },
        ExpressionType::Function(f) => ExprView::Function {
            token: f.token@,
            parameters: idents_view(f.parameters@),
            body: block_view(f.body),
        },
        ExpressionType::Call(c) => ExprView::Call {
            token: c.token@,
            function: Box::new(expr_view(*c.function)),
            arguments: exprs_view(c.arguments@),
        },
    }
}

pub closed spec fn exprs_view(v: Seq<ExpressionType>) -> Seq<ExprView>
    decreases v,
{
    if v.len() == 0 {
        Seq::empty()
    } else {
        exprs_view(v.drop_last()).push(expr_view(v.last()))
    }
}

pub closed spec fn block_view(b: BlockStatement) -> BlockView
    decreases b,
{
    BlockView { token: b.token@, statements: stmts_view(b.statements@) }
}

pub closed spec fn stmt_view(s: StatementType) -> StmtView
    decreases s,
{
    match s {
        StatementType::LetStatement(l) => StmtView::Let {
            token: l.token@,
            name: ident_view(l.name),
            value: expr_view(l.value),
        },
        StatementType::ReturnStatement(r) => StmtView::Return {
            token: r.token@,
            value: expr_view(r.value),
        },
        StatementType::ExpressionStatement(x) => StmtView::Expression {
            token: x.token@,
            expression: expr_view(x.expression),
        },
    }
}

pub closed spec fn stmts_view(v: Seq<StatementType>) -> Seq<StmtView>
    decreases v,
{
    if v.len() == 0 {
        Seq::empty()
    } else {
        stmts_view(v.drop_last()).push(stmt_view(v.last()))
    }
}

pub proof fn lemma_exprs_view(v: Seq<ExpressionType>)
    ensures
        exprs_view(v).len() == v.len(),
        forall|k: int| 0 <= k < v.len() ==> #[trigger] exprs_view(v)[k] == expr_view(v[k]),
    decreases v.len(),
{
    if v.len() > 0 {
        lemma_exprs_view(v.drop_last());
    }
}

// ---------------------------------------------------------------------------
// Canonical rendering
// ---------------------------------------------------------------------------

/// The rendering of an expression; prefix and infix expressions are fully
/// parenthesised, so that precedence shows in the text.
pub open spec fn expr_string(e: ExprView) -> Seq<char>
    decreases e,
{
    match e {
        ExprView::Ident(i) => i.value,
        ExprView::Int { token, .. } => token.literal,
        ExprView::Bool { token, .. } => token.literal,
        ExprView::Prefix { operator, right, .. } => "("@ + operator + expr_string(*right) + ")"@,
        ExprView::Infix { left, operator, right, .. } => "("@ + expr_string(*left) + " "@
            + operator + " "@ + expr_string(*right) + ")"@,
        ExprView::If { condition, consequence, alternative, .. } => "if"@ + expr_string(
            *condition,
        ) + " "@ + block_string(consequence) + match alternative {
            Some(b) => "else "@ + block_string(b),
            None => Seq::empty(),
        },
        ExprView::Function { token, parameters, body } => token.literal + "("@ + idents_string(
            parameters,
        ) + ") "@ + block_string(body),
        ExprView::Call { function, arguments, .. } => expr_string(*function) + "("@
            + exprs_string(arguments) + ")"@,
    }
}

/// Expressions separated by `", "`.
pub open spec fn exprs_string(s: Seq<ExprView>) -> Seq<char>
    decreases s,
{
    if s.len() == 0 {
        Seq::empty()
    } else if s.len() == 1 {
        expr_string(s[0])
    } else {
        exprs_string(s.drop_last()) + ", "@ + expr_string(s.last())
    }
}

/// Identifier names separated by `", "`.
pub open spec fn idents_string(s: Seq<IdentView>) -> Seq<char>
    decreases s.len(),
{
    if s.len() == 0 {
        Seq::empty()
    } else if s.len() == 1 {
        s[0].value
    } else {
        idents_string(s.drop_last()) + ", "@ + s.last().value
    }
}

/// A block renders as its statements, one after the other.
pub open spec fn block_string(b: BlockView) -> Seq<char>
    decreases b,
{
    stmts_string(b.statements)
}

pub open spec fn stmts_string(s: Seq<StmtView>) -> Seq<char>
    decreases s,
{
    if s.len() == 0 {
        Seq::empty()
    } else {
        stmts_string(s.drop_last()) + stmt_string(s.last())
    }
}

pub open spec fn stmt_string(s: StmtView) -> Seq<char>
    decreases s,
{
    match s {
        StmtView::Let { name, value, .. } => "let "@ + name.value + " = "@ + expr_string(value)
            + ";"@,
        StmtView::Return { value, .. } => "return "@ + expr_string(value) + ";"@,
        StmtView::Expression { expression, .. } => expr_string(expression),
    }
}

/// The literal of the token that opens a statement.
pub open spec fn stmt_literal(s: StmtView) -> Seq<char> {
    match s {
        StmtView::Let { token, .. } => token.literal,
        StmtView::Return { token, .. } => token.literal,
        StmtView::Expression { token, .. } => token.literal,
    }
}

/// The literal of the token that defines an expression node.
pub open spec fn expr_literal(e: ExprView) -> Seq<char> {
    match e {
        ExprView::Ident(i) => i.token.literal,
        ExprView::Int { token, .. } => token.literal,
        ExprView::Bool { token, .. } => token.literal,
        ExprView::Prefix { token, .. } => token.literal,
        ExprView::Infix { token, .. } => token.literal,
        ExprView::If { token, .. } => token.literal,
        ExprView::Function { token, .. } => token.literal,
        ExprView::Call { token, .. } => token.literal,
    }
}

proof fn lemma_stmts_string_push(pre: Seq<StatementType>, x: StatementType)
    ensures
        stmts_string(stmts_view(pre.push(x))) == stmts_string(stmts_view(pre)) + stmt_string(
            stmt_view(x),
        ),
{
    assert(pre.push(x).drop_last() =~= pre);
    let sv = stmts_view(pre.push(x));
    assert(sv == stmts_view(pre).push(stmt_view(x)));
    assert(sv.drop_last() =~= stmts_view(pre));
}


fn expression_string(e: &ExpressionType) -> (r: String)
    ensures
        r@ == expr_string(expr_view(*e)),
    decreases e,
{
    let mut buf = String::new();
    match e {
        ExpressionType::Identifer(i) => {
            push_str(&mut buf, i.value.as_str());
        },
        ExpressionType::IntegerLiteral(n) => {
            push_str(&mut buf, n.token.literal.as_str());
        },
        ExpressionType::Boolean(b) => {
            push_str(&mut buf, b.token.literal.as_str());
        },
        ExpressionType::Prefix(p) => {
            let right = expression_string(&p.right);
            push_str(&mut buf, "(");
            push_str(&mut buf, p.operator.as_str());
            push_str(&mut buf, right.as_str());
            push_str(&mut buf, ")");
        },
        ExpressionType::Infix(x) => {
            let left = expression_string(&x.left);
            let right = expression_string(&x.right);
            push_str(&mut buf, "(");
            push_str(&mut buf, left.as_str());
            push_str(&mut buf, " ");
            push_str(&mut buf, x.operator.as_str());
            push_str(&mut buf, " ");
            push_str(&mut buf, right.as_str());
            push_str(&mut buf, ")");
        },
        ExpressionType::If(x) => {
            let cond = expression_string(&x.condition);
            let cons = block_string_of(&x.consequence);
            push_str(&mut buf, "if");
            push_str(&mut buf, cond.as_str());
            push_str(&mut buf, " ");
            push_str(&mut buf, cons.as_str());
            match &x.alternative {
                Some(b) => {
                    let alt = block_string_of(b);
                    push_str(&mut buf, "else ");
                    push_str(&mut buf, alt.as_str());
                },
                None => {},
            }
        },
        ExpressionType::Function(f) => {
            let params = identifiers_string(&f.parameters);
            let body = block_string_of(&f.body);
            push_str(&mut buf, f.token.literal.as_str());
            push_str(&mut buf, "(");
            push_str(&mut buf, params.as_str());
            push_str(&mut buf, ") ");
            push_str(&mut buf, body.as_str());
        },
        ExpressionType::Call(c) => {
            let function = expression_string(&c.function);
            let args = expressions_string(&c.arguments);
            push_str(&mut buf, function.as_str());
            push_str(&mut buf, "(");
            push_str(&mut buf, args.as_str());
            push_str(&mut buf, ")");
        },
    }
    proof {
        assert(buf@ =~= expr_string(expr_view(*e)));
    }
    buf
}

fn expressions_string(v: &Vec<ExpressionType>) -> (r: String)
    ensures
        r@ == exprs_string(exprs_view(v@)),
    decreases v,
{
    let mut buf = String::new();
    let mut i: usize = 0;
    while i < v.len()
        invariant
            i <= v@.len(),
            buf@ == exprs_string(exprs_view(v@.subrange(0, i as int))),
        decreases v@.len() - i,
    {
        let item = expression_string(&v[i]);
        proof {
            let pre = v@.subrange(0, i as int);
            let next = v@.subrange(0, i + 1);
            assert(next.drop_last() =~= pre);
            assert(next.last() == v@[i as int]);
            lemma_exprs_view(pre);
            lemma_exprs_view(next);
            assert(exprs_view(next).drop_last() =~= exprs_view(pre));
        }
        if i > 0 {
            push_str(&mut buf, ", ");
        }
        push_str(&mut buf, item.as_str());
        proof {
            let next = v@.subrange(0, i + 1);
            lemma_exprs_view(next);
            if i == 0 {
                assert(buf@ =~= exprs_string(exprs_view(next)));
            } else {
                assert(buf@ =~= exprs_string(exprs_view(next)));
            }
        }
        i = i + 1;
    }
    assert(v@.subrange(0, v@.len() as int) =~= v@);
    buf
}

fn identifiers_string(v: &Vec<Identifer>) -> (r: String)
    ensures
        r@ == idents_string(idents_view(v@)),
{
    let mut buf = String::new();
    let mut i: usize = 0;
    while i < v.len()
        invariant
            i <= v@.len(),
            buf@ == idents_string(idents_view(v@.subrange(0, i as int))),
        decreases v@.len() - i,
    {
        let ghost pre = idents_view(v@.subrange(0, i as int));
        let ghost next = idents_view(v@.subrange(0, i + 1));
        assert(next.drop_last() =~= pre);
        if i > 0 {
            push_str(&mut buf, ", ");
        }
        push_str(&mut buf, v[i].value.as_str());
        assert(buf@ =~= idents_string(next));
        i = i + 1;
    }
    assert(v@.subrange(0, v@.len() as int) =~= v@);
    buf
}

fn block_string_of(b: &BlockStatement) -> (r: String)
    ensures
        r@ == block_string(block_view(*b)),
    decreases b,
{
    statements_string(&b.statements)
}

#[verifier::rlimit(60)]
fn statements_string(v: &Vec<StatementType>) -> (r: String)
    ensures
        r@ == stmts_string(stmts_view(v@)),
    decreases v,
{
    let mut buf = String::new();
    let mut i: usize = 0;
    while i < v.len()
        invariant
            i <= v@.len(),
            buf@ == stmts_string(stmts_view(v@.subrange(0, i as int))),
        decreases v@.len() - i,
    {
        let item = statement_string(&v[i]);
        let ghost pre = v@.subrange(0, i as int);
        push_str(&mut buf, item.as_str());
        proof {
            assert(v@.subrange(0, i + 1) =~= pre.push(v@[i as int]));
            lemma_stmts_string_push(pre, v@[i as int]);
        }
        i = i + 1;
    }
    assert(v@.subrange(0, v@.len() as int) =~= v@);
    buf
}

fn statement_string(s: &StatementType) -> (r: String)
    ensures
        r@ == stmt_string(stmt_view(*s)),
    decreases s,
{
    let mut buf = String::new();
    match s {
        StatementType::LetStatement(l) => {
            let value = expression_string(&l.value);
            push_str(&mut buf, "let ");
            push_str(&mut buf, l.name.value.as_str());
            push_str(&mut buf, " = ");
            push_str(&mut buf, value.as_str());
            push_str(&mut buf, ";");
        },
        StatementType::ReturnStatement(r) => {
            let value = expression_string(&r.value);
            push_str(&mut buf, "return ");
            push_str(&mut buf, value.as_str());
            push_str(&mut buf, ";");
        },
        StatementType::ExpressionStatement(x) => {
            let value = expression_string(&x.expression);
            push_str(&mut buf, value.as_str());
        },
    }
    proof {
        assert(buf@ =~= stmt_string(stmt_view(*s)));
    }
    buf
}

// ---------------------------------------------------------------------------
// The query surface every node offers
// ---------------------------------------------------------------------------

/// What every node of the tree can report: the literal of the token that
/// defines it, and its canonical rendering.
pub trait Node {
    spec fn literal_spec(&self) -> Seq<char>;

    spec fn string_spec(&self) -> Seq<char>;

    fn token_literal(&self) -> (r: String)
        ensures
            r@ == self.literal_spec(),
    ;

    fn string(&self) -> (r: String)
        ensures
            r@ == self.string_spec(),
    ;
}

impl Identifer {
    /// An identifier named by the literal of its token.
    pub fn new(token: Box<Token>) -> (r: Self)
        ensures
            ident_view(r) == (IdentView { token: token@, value: token@.literal }),
    {
        let value = token.literal.clone();
        Identifer { token, value }
    }
}

impl Node for Identifer {
    open spec fn literal_spec(&self) -> Seq<char> {
        self.token@.literal
    }

    open spec fn string_spec(&self) -> Seq<char> {
        self.value@
    }

    fn token_literal(&self) -> (r: String) {
        self.token.literal.clone()
    }

    fn string(&self) -> (r: String) {
        self.value.clone()
    }
}

impl Node for ExpressionType {
    open spec fn literal_spec(&self) -> Seq<char> {
        expr_literal(expr_view(*self))
    }

    open spec fn string_spec(&self) -> Seq<char> {
        expr_string(expr_view(*self))
    }

    fn token_literal(&self) -> (r: String) {
        match self {
            ExpressionType::Identifer(x) => x.token.literal.clone(),
            ExpressionType::IntegerLiteral(x) => x.token.literal.clone(),
            ExpressionType::Boolean(x) => x.token.literal.clone(),
            ExpressionType::Prefix(x) => x.token.literal.clone(),
            ExpressionType::Infix(x) => x.token.literal.clone(),
            ExpressionType::If(x) => x.token.literal.clone(),
            ExpressionType::Function(x) => x.token.literal.clone(),
            ExpressionType::Call(x) => x.token.literal.clone(),
        }
    }

    fn string(&self) -> (r: String) {
        expression_string(self)
    }
}

impl Node for StatementType {
    open spec fn literal_spec(&self) -> Seq<char> {
        stmt_literal(stmt_view(*self))
    }

    open spec fn string_spec(&self) -> Seq<char> {
        stmt_string(stmt_view(*self))
    }

    fn token_literal(&self) -> (r: String) {
        let ghost v = stmt_view(*self);
        match self {
            StatementType::LetStatement(x) => x.token.literal.clone(),
            StatementType::ReturnStatement(x) => x.token.literal.clone(),
            StatementType::ExpressionStatement(x) => x.token.literal.clone(),
        }
    }

    fn string(&self) -> (r: String) {
        statement_string(self)
    }
}

impl Node for LetStatement {
    open spec fn literal_spec(&self) -> Seq<char> {
        self.token@.literal
    }

    open spec fn string_spec(&self) -> Seq<char> {
        stmt_string(StmtView::Let { token: self.token@, name: ident_view(self.name), value: expr_view(self.value) })
    }

    fn token_literal(&self) -> (r: String) {
        self.token.literal.clone()
    }

    fn string(&self) -> (r: String) {
        let value = expression_string(&self.value);
        let mut buf = String::new();
        push_str(&mut buf, "let ");
        push_str(&mut buf, self.name.value.as_str());
        push_str(&mut buf, " = ");
        push_str(&mut buf, value.as_str());
        push_str(&mut buf, ";");
        assert(buf@ =~= self.string_spec());
        buf
    }
}

impl Node for ReturnStatement {
    open spec fn literal_spec(&self) -> Seq<char> {
        self.token@.literal
    }

    open spec fn string_spec(&self) -> Seq<char> {
        stmt_string(StmtView::Return { token: self.token@, value: expr_view(self.value) })
    }

    fn token_literal(&self) -> (r: String) {
        self.token.literal.clone()
    }

    fn string(&self) -> (r: String) {
        let value = expression_string(&self.value);
        let mut buf = String::new();
        push_str(&mut buf, "return ");
        push_str(&mut buf, value.as_str());
        push_str(&mut buf, ";");
        assert(buf@ =~= self.string_spec());
        buf
    }
}

impl Node for ExpressionStatement {
    open spec fn literal_spec(&self) -> Seq<char> {
        self.token@.literal
    }

    open spec fn string_spec(&self) -> Seq<char> {
        expr_string(expr_view(self.expression))
    }

    fn token_literal(&self) -> (r: String) {
        self.token.literal.clone()
    }

    fn string(&self) -> (r: String) {
        expression_string(&self.expression)
    }
}

impl Node for Program {
    /// The literal of the first statement's token, or nothing for an empty
    /// program.
    open spec fn literal_spec(&self) -> Seq<char> {
        if self@.len() > 0 {
            stmt_literal(stmt_view(self@[0]))
        } else {
            Seq::empty()
        }
    }

    /// The statements' renderings, concatenated in order.
    open spec fn string_spec(&self) -> Seq<char> {
        stmts_string(stmts_view(self@))
    }

    fn token_literal(&self) -> (r: String) {
        if self.len() > 0 {
            assert(self@.len() > 0);
            match &self[0] {
                StatementType::LetStatement(x) => x.token.literal.clone(),
                StatementType::ReturnStatement(x) => x.token.literal.clone(),
                StatementType::ExpressionStatement(x) => x.token.literal.clone(),
            }
        } else {
            String::new()
        }
    }

    fn string(&self) -> (r: String) {
        statements_string(self)
    }
}

// ---------------------------------------------------------------------------
// Constructors, each stating the view of the node it builds
// ---------------------------------------------------------------------------

pub proof fn lemma_views_empty()
    ensures
        exprs_view(Seq::empty()) == Seq::<ExprView>::empty(),
        stmts_view(Seq::empty()) == Seq::<StmtView>::empty(),
{
}

pub proof fn lemma_stmts_view_push(v: Seq<StatementType>, x: StatementType)
    ensures
        stmts_view(v.push(x)) == stmts_view(v).push(stmt_view(x)),
{
    assert(v.push(x).drop_last() =~= v);
}

pub proof fn lemma_exprs_view_push(v: Seq<ExpressionType>, x: ExpressionType)
    ensures
        exprs_view(v.push(x)) == exprs_view(v).push(expr_view(x)),
{
    assert(v.push(x).drop_last() =~= v);
}

pub fn expr_ident(i: Identifer) -> (r: ExpressionType)
    ensures
        expr_view(r) == ExprView::Ident(ident_view(i)),
{
    ExpressionType::Identifer(i)
}

pub fn expr_int(token: Token, value: i64) -> (r: ExpressionType)
    ensures
        expr_view(r) == (ExprView::Int { token: token@, value }),
{
    ExpressionType::IntegerLiteral(IntegerLiteral { token: Box::new(token), value })
}

pub fn expr_bool(token: Token, value: bool) -> (r: ExpressionType)
    ensures
        expr_view(r) == (ExprView::Bool { token: token@, value }),
{
    ExpressionType::Boolean(BooleanLiteral { token: Box::new(token), value })
}

pub fn expr_prefix(token: Token, operator: String, right: ExpressionType) -> (r: ExpressionType)
    ensures
        expr_view(r) == (ExprView::Prefix {
            token: token@,
            operator: operator@,
            right: Box::new(expr_view(right)),
        }),
{
    ExpressionType::Prefix(PrefixExpression { token: Box::new(token), operator, right: Box::new(right) })
}

pub fn expr_infix(token: Token, left: ExpressionType, operator: String, right: ExpressionType) -> (r:
    ExpressionType)
    ensures
        expr_view(r) == (ExprView::Infix {
            token: token@,
            left: Box::new(expr_view(left)),
            operator: operator@,
            right: Box::new(expr_view(right)),
        }),
{
    ExpressionType::Infix(
        InfixExpression {
            token: Box::new(token),
            left: Box::new(left),
            operator,
            right: Box::new(right),
        },
    )
}

pub fn expr_if(
    token: Token,
    condition: ExpressionType,
    consequence: BlockStatement,
    alternative: Option<BlockStatement>,
) -> (r: ExpressionType)
    ensures
        expr_view(r) == (ExprView::If {
            token: token@,
            condition: Box::new(expr_view(condition)),
            consequence: block_view(consequence),
            alternative: match alternative {
                Some(b) => Some(block_view(b)),
                None => None,
            },
        }),
{
    ExpressionType::If(
        IfExpression { token: Box::new(token), condition: Box::new(condition), consequence, alternative },
    )
}

pub fn expr_function(token: Token, parameters: Vec<Identifer>, body: BlockStatement) -> (r:
    ExpressionType)
    ensures
        expr_view(r) == (ExprView::Function {
            token: token@,
            parameters: idents_view(parameters@),
            body: block_view(body),
        }),
{
    ExpressionType::Function(FunctionLiteral { token: Box::new(token), parameters, body })
}

pub fn expr_call(token: Token, function: ExpressionType, arguments: Vec<ExpressionType>) -> (r:
    ExpressionType)
    ensures
        expr_view(r) == (ExprView::Call {
            token: token@,
            function: Box::new(expr_view(function)),
            arguments: exprs_view(arguments@),
        }),
{
    ExpressionType::Call(CallExpression { token: Box::new(token), function: Box::new(function), arguments })
}

pub fn block(token: Token, statements: Vec<StatementType>) -> (r: BlockStatement)
    ensures
        block_view(r) == (BlockView { token: token@, statements: stmts_view(statements@) }),
{
    BlockStatement { token: Box::new(token), statements }
}

pub fn stmt_let(token: Token, name: Identifer, value: ExpressionType) -> (r: StatementType)
    ensures
        stmt_view(r) == (StmtView::Let {
            token: token@,
            name: ident_view(name),
            value: expr_view(value),
        }),
{
    StatementType::LetStatement(LetStatement { token: Box::new(token), name, value })
}

pub fn stmt_return(token: Token, value: ExpressionType) -> (r: StatementType)
    ensures
        stmt_view(r) == (StmtView::Return { token: token@, value: expr_view(value) }),
{
    StatementType::ReturnStatement(ReturnStatement { token: Box::new(token), value })
}

pub fn stmt_expression(token: Token, expression: ExpressionType) -> (r: StatementType)
    ensures
        stmt_view(r) == (StmtView::Expression { token: token@, expression: expr_view(expression) }),
{
    StatementType::ExpressionStatement(ExpressionStatement { token: Box::new(token), expression })
}

} // verus!

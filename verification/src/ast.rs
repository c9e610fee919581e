//! The AST model: tagged variants for statements and expressions, each
//! renderable to a canonical, fully parenthesized text.
//!
//! The grammar is fixed, so each category is a closed sum type with one
//! exhaustive rendering function; the specification functions [`render_expr`],
//! [`render_stmt`] and [`render_program`] are the oracle the executable
//! renderers are proved against. Rendering is defined for well-formed nodes
//! only: an operator reaches a `Prefix` or `Infix` node only if the parser
//! has a handler for it, and [`expr_wf`] records just that.

use vstd::prelude::*;
use vstd::string::*;
use crate::token::TokenKind;

verus! {

/// A name written in the source.
pub struct Identifier {
    pub name: String,
}

/// A numeric literal's value, held as canonical decimal text (verified code
/// cannot hold a float; see the numeric-conversion module).
pub struct NumberLiteral {
    pub value: String,
}

/// The placeholder for a value the current grammar does not yet parse.
pub struct NoOpExpression {}

/// A unary operator applied to an operand.
pub struct PrefixExpression {
    pub op: TokenKind,
    pub expression: Box<Expression>,
}

/// A binary operator applied to two operands.
pub struct InfixExpression {
    pub op: TokenKind,
    pub lhs: Box<Expression>,
    pub rhs: Box<Expression>,
}

/// An expression: one closed set of variants.
pub enum Expression {
    Identifier(Identifier),
    Number(NumberLiteral),
    NoOp(NoOpExpression),
    Prefix(PrefixExpression),
    Infix(InfixExpression),
}

/// `let name = value;`
pub struct LetStatement {
    pub id: Identifier,
    pub value: Expression,
}

/// `return value;`
pub struct ReturnStatement {
    pub value: Expression,
}

/// A bare expression in statement position.
pub struct ExpressionStatement {
    pub expression: Expression,
}

/// A statement: one closed set of variants.
pub enum Statement {
    Let(LetStatement),
    Return(ReturnStatement),
    Expression(ExpressionStatement),
}

/// The root of the tree: the statements, in source order.
pub struct Program {
    pub statements: Vec<Statement>,
}

/// The unary operators the parser registers handlers for.
pub open spec fn prefix_op_wf(op: TokenKind) -> bool {
    op == TokenKind::Minus || op == TokenKind::Band
}

/// The binary operators the parser registers handlers for.
pub open spec fn infix_op_wf(op: TokenKind) -> bool {
    op == TokenKind::Plus || op == TokenKind::Minus || op == TokenKind::Asterisk || op
        == TokenKind::Slash || op == TokenKind::LT || op == TokenKind::GT || op == TokenKind::EQ
        || op == TokenKind::NE || op == TokenKind::SEQ || op == TokenKind::SNE
}

/// Every operator in the tree has a registered handler, so rendering always
/// has a textual form for it.
pub open spec fn expr_wf(e: Expression) -> bool
    decreases e,
{
    match e {
        Expression::Identifier(_) => true,
        Expression::Number(_) => true,
        Expression::NoOp(_) => true,
        Expression::Prefix(p) => prefix_op_wf(p.op) && expr_wf(*p.expression),
        Expression::Infix(i) => infix_op_wf(i.op) && expr_wf(*i.lhs) && expr_wf(*i.rhs),
    }
}

pub open spec fn stmt_wf(s: Statement) -> bool {
    match s {
        Statement::Let(l) => expr_wf(l.value),
        Statement::Return(r) => expr_wf(r.value),
        Statement::Expression(es) => expr_wf(es.expression),
    }
}

pub open spec fn program_wf(p: Program) -> bool {
    forall|i: int| 0 <= i < p.statements@.len() ==> stmt_wf(#[trigger] p.statements@[i])
}

/// The text of an operator with a registered handler.
pub open spec fn op_text(op: TokenKind) -> Seq<char> {
    match op {
        TokenKind::Plus => "+"@,
        TokenKind::Minus => "-"@,
        TokenKind::Asterisk => "*"@,
        TokenKind::Slash => "/"@,
        TokenKind::LT => "<"@,
        TokenKind::GT => ">"@,
        TokenKind::EQ => "=="@,
        TokenKind::NE => "!="@,
        TokenKind::SEQ => "==="@,
        TokenKind::SNE => "!=="@,
        TokenKind::Band => "!"@,
        _ => Seq::empty(),
    }
}

pub open spec fn render_prefix(p: PrefixExpression) -> Seq<char>
    decreases p,
{
    op_text(p.op) + "("@ + render_expr(*p.expression) + ")"@
}

pub open spec fn render_infix(i: InfixExpression) -> Seq<char>
    decreases i,
{
    "("@ + render_expr(*i.lhs) + " "@ + op_text(i.op) + " "@ + render_expr(*i.rhs) + ")"@
}

/// The canonical, fully parenthesized text of an expression: identifiers and
/// numbers render bare, `op(operand)` for a prefix node, `(lhs op rhs)` for
/// an infix node, so precedence and associativity are visible directly.
pub open spec fn render_expr(e: Expression) -> Seq<char>
    decreases e,
{
    match e {
        Expression::Identifier(id) => id.name@,
        Expression::Number(n) => n.value@,
        Expression::NoOp(_) => "\"no-op\""@,
        Expression::Prefix(p) => render_prefix(p),
        Expression::Infix(i) => render_infix(i),
    }
}

pub open spec fn render_let(l: LetStatement) -> Seq<char> {
    "let "@ + l.id.name@ + " = "@ + render_expr(l.value) + ";"@
}

pub open spec fn render_return(r: ReturnStatement) -> Seq<char> {
    "return "@ + render_expr(r.value) + ";"@
}

pub open spec fn render_expr_stmt(es: ExpressionStatement) -> Seq<char> {
    render_expr(es.expression) + ";"@
}

pub open spec fn render_stmt(s: Statement) -> Seq<char> {
    match s {
        Statement::Let(l) => render_let(l),
        Statement::Return(r) => render_return(r),
        Statement::Expression(es) => render_expr_stmt(es),
    }
}

/// The statements' texts joined by single newlines.
pub open spec fn render_program(stmts: Seq<Statement>) -> Seq<char>
    decreases stmts.len(),
{
    if stmts.len() == 0 {
        Seq::empty()
    } else if stmts.len() == 1 {
        render_stmt(stmts[0])
    } else {
        render_program(stmts.drop_last()) + "\n"@ + render_stmt(stmts.last())
    }
}

/// Everything in the tree renders to canonical text.
pub trait Node {
    /// When rendering is defined for this node.
    spec fn spec_wf(&self) -> bool;

    /// The canonical text of this node.
    spec fn spec_render(&self) -> Seq<char>;

    /// Renders this node to its canonical text.
    fn to_string(&self) -> (r: String)
        requires
            self.spec_wf(),
        ensures
            r@ == self.spec_render(),
    ;
}

/// Renders an expression; the work behind every expression node's
/// `to_string`.
pub fn expr_to_string(e: &Expression) -> (r: String)
    requires
        expr_wf(*e),
    ensures
        r@ == render_expr(*e),
    decreases *e,
{
    match e {
        Expression::Identifier(id) => id.name.clone(),
        Expression::Number(n) => n.value.clone(),
        Expression::NoOp(_) => String::from_str("\"no-op\""),
        Expression::Prefix(p) => {
            let mut out = String::from_str(op_text_of(p.op));
            out.append("(");
            let inner = expr_to_string(&*p.expression);
            out.append(inner.as_str());
            out.append(")");
            proof {
                assert(out@ =~= render_expr(*e));
            }
            out
        },
        Expression::Infix(i) => {
            let mut out = String::from_str("(");
            let lhs = expr_to_string(&*i.lhs);
            out.append(lhs.as_str());
            out.append(" ");
            out.append(op_text_of(i.op));
            out.append(" ");
            let rhs = expr_to_string(&*i.rhs);
            out.append(rhs.as_str());
            out.append(")");
            proof {
                assert(out@ =~= render_expr(*e));
            }
            out
        },
    }
}

/// The text of an operator with a registered handler.
pub fn op_text_of(op: TokenKind) -> (s: &'static str)
    ensures
        s@ == op_text(op),
{
    proof {
        reveal_strlit("");
        assert(""@ =~= Seq::<char>::empty());
    }
    match op {
        TokenKind::Plus => "+",
        TokenKind::Minus => "-",
        TokenKind::Asterisk => "*",
        TokenKind::Slash => "/",
        TokenKind::LT => "<",
        TokenKind::GT => ">",
        TokenKind::EQ => "==",
        TokenKind::NE => "!=",
        TokenKind::SEQ => "===",
        TokenKind::SNE => "!==",
        TokenKind::Band => "!",
        _ => "",
    }
}

impl Node for Identifier {
    open spec fn spec_wf(&self) -> bool {
        true
    }

    open spec fn spec_render(&self) -> Seq<char> {
        self.name@
    }

    fn to_string(&self) -> (r: String) {
        self.name.clone()
    }
}

impl Node for NumberLiteral {
    open spec fn spec_wf(&self) -> bool {
        true
    }

    open spec fn spec_render(&self) -> Seq<char> {
        self.value@
    }

    fn to_string(&self) -> (r: String) {
        self.value.clone()
    }
}

impl Node for NoOpExpression {
    open spec fn spec_wf(&self) -> bool {
        true
    }

    open spec fn spec_render(&self) -> Seq<char> {
        "\"no-op\""@
    }

    fn to_string(&self) -> (r: String) {
        String::from_str("\"no-op\"")
    }
}

impl Node for PrefixExpression {
    open spec fn spec_wf(&self) -> bool {
        prefix_op_wf(self.op) && expr_wf(*self.expression)
    }

    open spec fn spec_render(&self) -> Seq<char> {
        render_prefix(*self)
    }

    fn to_string(&self) -> (r: String) {
        let mut out = String::from_str(op_text_of(self.op));
        out.append("(");
        let inner = expr_to_string(&*self.expression);
        out.append(inner.as_str());
        out.append(")");
        proof {
            assert(out@ =~= render_prefix(*self));
        }
        out
    }
}

impl Node for InfixExpression {
    open spec fn spec_wf(&self) -> bool {
        infix_op_wf(self.op) && expr_wf(*self.lhs) && expr_wf(*self.rhs)
    }

    open spec fn spec_render(&self) -> Seq<char> {
        render_infix(*self)
    }

    fn to_string(&self) -> (r: String) {
        let mut out = String::from_str("(");
        let lhs = expr_to_string(&*self.lhs);
        out.append(lhs.as_str());
        out.append(" ");
        out.append(op_text_of(self.op));
        out.append(" ");
        let rhs = expr_to_string(&*self.rhs);
        out.append(rhs.as_str());
        out.append(")");
        proof {
            assert(out@ =~= render_infix(*self));
        }
        out
    }
}

impl Node for Expression {
    open spec fn spec_wf(&self) -> bool {
        expr_wf(*self)
    }

    open spec fn spec_render(&self) -> Seq<char> {
        render_expr(*self)
    }

    fn to_string(&self) -> (r: String) {
        expr_to_string(self)
    }
}

impl Node for LetStatement {
    open spec fn spec_wf(&self) -> bool {
        expr_wf(self.value)
    }

    open spec fn spec_render(&self) -> Seq<char> {
        render_let(*self)
    }

    fn to_string(&self) -> (r: String) {
        let mut out = String::from_str("let ");
        out.append(self.id.name.as_str());
        out.append(" = ");
        let v = expr_to_string(&self.value);
        out.append(v.as_str());
        out.append(";");
        proof {
            assert(out@ =~= render_let(*self));
        }
        out
    }
}

impl Node for ReturnStatement {
    open spec fn spec_wf(&self) -> bool {
        expr_wf(self.value)
    }

    open spec fn spec_render(&self) -> Seq<char> {
        render_return(*self)
    }

    fn to_string(&self) -> (r: String) {
        let mut out = String::from_str("return ");
        let v = expr_to_string(&self.value);
        out.append(v.as_str());
        out.append(";");
        proof {
            assert(out@ =~= render_return(*self));
        }
        out
    }
}

impl Node for ExpressionStatement {
    open spec fn spec_wf(&self) -> bool {
        expr_wf(self.expression)
    }

    open spec fn spec_render(&self) -> Seq<char> {
        render_expr_stmt(*self)
    }

    fn to_string(&self) -> (r: String) {
        let mut out = expr_to_string(&self.expression);
        out.append(";");
        proof {
            assert(out@ =~= render_expr_stmt(*self));
        }
        out
    }
}

impl Node for Statement {
    open spec fn spec_wf(&self) -> bool {
        stmt_wf(*self)
    }

    open spec fn spec_render(&self) -> Seq<char> {
        render_stmt(*self)
    }

    fn to_string(&self) -> (r: String) {
        match self {
            Statement::Let(l) => l.to_string(),
            Statement::Return(r) => r.to_string(),
            Statement::Expression(es) => es.to_string(),
        }
    }
}

impl Node for Program {
    open spec fn spec_wf(&self) -> bool {
        program_wf(*self)
    }

    open spec fn spec_render(&self) -> Seq<char> {
        render_program(self.statements@)
    }

    /// The statements' texts joined by single newlines.
    fn to_string(&self) -> (r: String) {
        let mut out = String::new();
        let n = self.statements.len();
        let mut i: usize = 0;
        while i < n
            invariant
                i <= n == self.statements@.len(),
                program_wf(*self),
                out@ == render_program(self.statements@.subrange(0, i as int)),
            decreases n - i,
        {
            if i > 0 {
                out.append("\n");
            }
            let s = stmt_to_string(&self.statements[i]);
            out.append(s.as_str());
            i = i + 1;
            proof {
                let pre = self.statements@.subrange(0, i as int);
                assert(pre.drop_last() =~= self.statements@.subrange(0, i - 1));
                assert(pre.last() == self.statements@[i - 1]);
                assert(out@ =~= render_program(pre));
            }
        }
        proof {
            assert(self.statements@.subrange(0, n as int) =~= self.statements@);
        }
        out
    }
}

/// Renders a statement; the work behind every statement node's `to_string`.
pub fn stmt_to_string(s: &Statement) -> (r: String)
    requires
        stmt_wf(*s),
    ensures
        r@ == render_stmt(*s),
{
    s.to_string()
}

} // verus!

//! The Pratt (operator-precedence) parser.
//!
//! The parser pulls tokens from a lexer two at a time (current plus one of
//! lookahead), drives a precedence-climbing expression algorithm and a
//! straight-line statement grammar, accumulates diagnostics in order, and
//! emits a best-effort [`Program`]: a statement or expression that fails
//! mid-parse is omitted and parsing goes on.
//!
//! The parser's position in the source is tracked as a token index: [`tpos`]
//! places token `n` in the source via the lexer's [`token_at`] specification,
//! and the parser invariant ties the current and lookahead tokens, and the
//! lexer's own position, to that index. [`parser_measure`] shrinks whenever
//! a token is consumed, which bounds every loop and recursion.

use vstd::prelude::*;
use vstd::string::*;
use vstd::seq_lib::*;
use crate::ast::{
    Expression, Statement, Program, Identifier, NumberLiteral, NoOpExpression, PrefixExpression,
    InfixExpression, LetStatement, ReturnStatement, ExpressionStatement, expr_wf, stmt_wf,
    program_wf, prefix_op_wf, infix_op_wf,
};
use crate::lexer::{Lexer, SpecToken, token_at, lemma_token_at, skip_ws_from};
use crate::number::{NumberError, number_value, spec_number_value};
use crate::token::{Token, TokenKind};

verus! {

/// The binding strength of a binary operator, totally ordered by
/// [`prec_level`].
#[derive(Debug, PartialEq, Eq, Structural, Clone, Copy)]
pub enum Precedence {
    Lowest,
    Equals,
    LessGreater,
    Sum,
    Product,
    Prefix,
    Call,
}

pub open spec fn spec_prec_level(p: Precedence) -> nat {
    match p {
        Precedence::Lowest => 0,
        Precedence::Equals => 1,
        Precedence::LessGreater => 2,
        Precedence::Sum => 3,
        Precedence::Product => 4,
        Precedence::Prefix => 5,
        Precedence::Call => 6,
    }
}

/// The numeric level of a precedence.
pub fn prec_level(p: Precedence) -> (n: u8)
    ensures
        n == spec_prec_level(p),
{
    match p {
        Precedence::Lowest => 0,
        Precedence::Equals => 1,
        Precedence::LessGreater => 2,
        Precedence::Sum => 3,
        Precedence::Product => 4,
        Precedence::Prefix => 5,
        Precedence::Call => 6,
    }
}

/// Whether `a` binds less tightly than `b`.
pub fn prec_less(a: Precedence, b: Precedence) -> (r: bool)
    ensures
        r == (spec_prec_level(a) < spec_prec_level(b)),
{
    prec_level(a) < prec_level(b)
}

/// The precedence table: binary operators map to their level; every other
/// kind sits at `Lowest`, which ends the climbing loop at statement
/// boundaries and unknown operators.
pub open spec fn spec_precedence_of(k: TokenKind) -> Precedence {
    match k {
        TokenKind::EQ => Precedence::Equals,
        TokenKind::NE => Precedence::Equals,
        TokenKind::SEQ => Precedence::Equals,
        TokenKind::SNE => Precedence::Equals,
        TokenKind::LT => Precedence::LessGreater,
        TokenKind::GT => Precedence::LessGreater,
        TokenKind::Plus => Precedence::Sum,
        TokenKind::Minus => Precedence::Sum,
        TokenKind::Asterisk => Precedence::Product,
        TokenKind::Slash => Precedence::Product,
        _ => Precedence::Lowest,
    }
}

pub fn precedence_of(k: TokenKind) -> (p: Precedence)
    ensures
        p == spec_precedence_of(k),
{
    match k {
        TokenKind::EQ => Precedence::Equals,
        TokenKind::NE => Precedence::Equals,
        TokenKind::SEQ => Precedence::Equals,
        TokenKind::SNE => Precedence::Equals,
        TokenKind::LT => Precedence::LessGreater,
        TokenKind::GT => Precedence::LessGreater,
        TokenKind::Plus => Precedence::Sum,
        TokenKind::Minus => Precedence::Sum,
        TokenKind::Asterisk => Precedence::Product,
        TokenKind::Slash => Precedence::Product,
        _ => Precedence::Lowest,
    }
}

/// The kinds that may begin an expression: the registered prefix handlers.
pub open spec fn has_prefix_handler(k: TokenKind) -> bool {
    k == TokenKind::Identifier || k == TokenKind::Number || k == TokenKind::Minus || k
        == TokenKind::Band
}

/// The kinds with a registered infix handler.
pub open spec fn has_infix_handler(k: TokenKind) -> bool {
    infix_op_wf(k)
}

/// The source position at which token number `n` starts being scanned:
/// token 0 starts at the beginning, and each token starts where the one
/// before it ended.
pub open spec fn tpos(s: Seq<char>, n: nat) -> nat
    decreases n,
{
    if n == 0 {
        0
    } else {
        token_at(s, tpos(s, (n - 1) as nat)).next
    }
}

/// Token number `n` of the source.
pub open spec fn tok(s: Seq<char>, n: nat) -> SpecToken {
    token_at(s, tpos(s, n))
}

pub proof fn lemma_tpos(s: Seq<char>, n: nat)
    ensures
        tpos(s, n) <= s.len(),
    decreases n,
{
    if n > 0 {
        lemma_tpos(s, (n - 1) as nat);
        lemma_token_at(s, tpos(s, (n - 1) as nat));
    }
}

/// Once the token stream reaches `EOF` it stays there: the next token is
/// `EOF` as well and the scan stands at the end of the input.
pub proof fn lemma_tok_eof_stable(s: Seq<char>, n: nat)
    requires
        tok(s, n).kind == TokenKind::EOF,
    ensures
        tpos(s, n + 1) == s.len(),
        tok(s, n + 1).kind == TokenKind::EOF,
        tok(s, n + 1).literal == Seq::<char>::empty(),
{
    lemma_tpos(s, n);
    lemma_token_at(s, tpos(s, n));
    assert(skip_ws_from(s, s.len() as nat) == s.len());
}

/// How much parsing work is left at token index `n`: the unread characters
/// plus one for each of the two buffered tokens that is not yet `EOF`.
/// Consuming a token strictly shrinks it.
pub open spec fn parser_measure(s: Seq<char>, n: nat) -> int {
    s.len() - tpos(s, n) + (if tok(s, n).kind != TokenKind::EOF {
        1int
    } else {
        0int
    }) + (if tok(s, n + 1).kind != TokenKind::EOF {
        1int
    } else {
        0int
    })
}

pub proof fn lemma_measure_nonneg(s: Seq<char>, n: nat)
    ensures
        parser_measure(s, n) >= 0,
{
    lemma_tpos(s, n);
}

/// Advancing over a token other than `EOF` strictly shrinks the measure.
pub proof fn lemma_measure_next(s: Seq<char>, n: nat)
    requires
        tok(s, n).kind != TokenKind::EOF,
    ensures
        parser_measure(s, n + 1) < parser_measure(s, n),
        parser_measure(s, n + 1) >= 0,
{
    lemma_tpos(s, n);
    lemma_tpos(s, n + 1);
    lemma_tpos(s, n + 2);
    lemma_token_at(s, tpos(s, n));
    if tok(s, n + 1).kind == TokenKind::EOF {
        lemma_tok_eof_stable(s, n + 1);
        assert(tpos(s, n + 2) == s.len());
    } else {
        lemma_token_at(s, tpos(s, n + 1));
    }
}

/// The measure never grows as the token index advances.
pub proof fn lemma_measure_mono(s: Seq<char>, a: nat, b: nat)
    requires
        a <= b,
    ensures
        parser_measure(s, b) <= parser_measure(s, a),
    decreases b - a,
{
    if a < b {
        lemma_measure_mono(s, a, (b - 1) as nat);
        let n = (b - 1) as nat;
        if tok(s, n).kind != TokenKind::EOF {
            lemma_measure_next(s, n);
        } else {
            lemma_tok_eof_stable(s, n);
            lemma_tok_eof_stable(s, n + 1);
            lemma_tpos(s, n);
        }
    }
}

/// The visible name of a token kind, as diagnostics spell it.
pub open spec fn spec_kind_name(k: TokenKind) -> Seq<char> {
    match k {
        TokenKind::Illegal => "Illegal"@,
        TokenKind::EOF => "EOF"@,
        TokenKind::Assign => "Assign"@,
        TokenKind::Plus => "Plus"@,
        TokenKind::Minus => "Minus"@,
        TokenKind::Asterisk => "Asterisk"@,
        TokenKind::Slash => "Slash"@,
        TokenKind::Band => "Band"@,
        TokenKind::LT => "LT"@,
        TokenKind::GT => "GT"@,
        TokenKind::EQ => "EQ"@,
        TokenKind::NE => "NE"@,
        TokenKind::SEQ => "SEQ"@,
        TokenKind::SNE => "SNE"@,
        TokenKind::Commas => "Commas"@,
        TokenKind::Semicolon => "Semicolon"@,
        TokenKind::Dot => "Dot"@,
        TokenKind::LParen => "LParen"@,
        TokenKind::RParen => "RParen"@,
        TokenKind::LBrace => "LBrace"@,
        TokenKind::RBrace => "RBrace"@,
        TokenKind::If => "If"@,
        TokenKind::Else => "Else"@,
        TokenKind::True => "True"@,
        TokenKind::False => "False"@,
        TokenKind::Function => "Function"@,
        TokenKind::Let => "Let"@,
        TokenKind::Return => "Return"@,
        TokenKind::Identifier => "Identifier"@,
        TokenKind::Number => "Number"@,
    }
}

pub fn kind_name(k: TokenKind) -> (s: &'static str)
    ensures
        s@ == spec_kind_name(k),
{
    match k {
        TokenKind::Illegal => "Illegal",
        TokenKind::EOF => "EOF",
        TokenKind::Assign => "Assign",
        TokenKind::Plus => "Plus",
        TokenKind::Minus => "Minus",
        TokenKind::Asterisk => "Asterisk",
        TokenKind::Slash => "Slash",
        TokenKind::Band => "Band",
        TokenKind::LT => "LT",
        TokenKind::GT => "GT",
        TokenKind::EQ => "EQ",
        TokenKind::NE => "NE",
        TokenKind::SEQ => "SEQ",
        TokenKind::SNE => "SNE",
        TokenKind::Commas => "Commas",
        TokenKind::Semicolon => "Semicolon",
        TokenKind::Dot => "Dot",
        TokenKind::LParen => "LParen",
        TokenKind::RParen => "RParen",
        TokenKind::LBrace => "LBrace",
        TokenKind::RBrace => "RBrace",
        TokenKind::If => "If",
        TokenKind::Else => "Else",
        TokenKind::True => "True",
        TokenKind::False => "False",
        TokenKind::Function => "Function",
        TokenKind::Let => "Let",
        TokenKind::Return => "Return",
        TokenKind::Identifier => "Identifier",
        TokenKind::Number => "Number",
    }
}

/// The diagnostic recorded when a lookahead token is not what the grammar
/// expects.
pub open spec fn peak_error_msg(expect: TokenKind, got: TokenKind) -> Seq<char> {
    "expected next token to be "@ + spec_kind_name(expect) + ", got "@ + spec_kind_name(got)
        + " instead"@
}

/// The diagnostic recorded when no registered handler can begin an
/// expression at the current token.
pub open spec fn no_prefix_error_msg(k: TokenKind) -> Seq<char> {
    "no prefix parse function for "@ + spec_kind_name(k) + " found"@
}

/// The diagnostic recorded when a numeric literal fails to convert.
pub open spec fn number_error_msg(lit: Seq<char>, e: NumberError) -> Seq<char> {
    "fail to parse ["@ + lit + "]: "@ + e.spec_message()
}

/// The shape of a parsed expression, at the specification level: literals
/// and names as their text, operators as their token kinds.
pub enum SpecExpr {
    Ident(Seq<char>),
    Num(Seq<char>),
    NoOp,
    Prefix(TokenKind, Box<SpecExpr>),
    Infix(TokenKind, Box<SpecExpr>, Box<SpecExpr>),
}

/// The shape of a parsed statement, at the specification level. The current
/// grammar parses no right-hand sides for `let` and `return`, so those carry
/// nothing but the bound name.
pub enum SpecStmt {
    Let(Seq<char>),
    Return,
    Expr(SpecExpr),
}

/// Whether the expression node `e` has exactly the shape `g`.
pub open spec fn expr_models(e: Expression, g: SpecExpr) -> bool
    decreases e,
{
    match (e, g) {
        (Expression::Identifier(id), SpecExpr::Ident(name)) => id.name@ == name,
        (Expression::Number(n), SpecExpr::Num(v)) => n.value@ == v,
        (Expression::NoOp(_), SpecExpr::NoOp) => true,
        (Expression::Prefix(p), SpecExpr::Prefix(op, inner)) => p.op == op && expr_models(
            *p.expression,
            *inner,
        ),
        (Expression::Infix(i), SpecExpr::Infix(op, l, r)) => i.op == op && expr_models(*i.lhs, *l)
            && expr_models(*i.rhs, *r),
        _ => false,
    }
}

/// Whether the statement node `st` has exactly the shape `g`.
pub open spec fn stmt_models(st: Statement, g: SpecStmt) -> bool {
    match (st, g) {
        (Statement::Let(l), SpecStmt::Let(name)) => l.id.name@ == name && l.value matches Expression::NoOp(_),
        (Statement::Return(r), SpecStmt::Return) => r.value matches Expression::NoOp(_),
        (Statement::Expression(es), SpecStmt::Expr(ge)) => expr_models(es.expression, ge),
        _ => false,
    }
}

/// How many tokens a skipped-over statement body covers: the distance from
/// `n` to the next semicolon or `EOF` token.
pub open spec fn skip_sem_adv(s: Seq<char>, n: nat) -> nat
    decreases parser_measure(s, n)
    via skip_sem_adv_dec
{
    if tok(s, n).kind == TokenKind::Semicolon || tok(s, n).kind == TokenKind::EOF {
        0
    } else {
        1 + skip_sem_adv(s, n + 1)
    }
}

#[via_fn]
proof fn skip_sem_adv_dec(s: Seq<char>, n: nat) {
    if !(tok(s, n).kind == TokenKind::Semicolon || tok(s, n).kind == TokenKind::EOF) {
        lemma_measure_next(s, n);
    }
}

/// What precedence climbing yields at token `n` under a minimum binding
/// strength: the parsed shape or nothing, the tokens consumed (the end of
/// the expression stands `adv` tokens past `n`), and the diagnostics
/// appended, in order.
pub open spec fn spec_parse_expression(s: Seq<char>, n: nat, prec: Precedence) -> (Option<
    SpecExpr,
>, nat, Seq<Seq<char>>)
    decreases parser_measure(s, n), 1int
    when parser_measure(s, n) >= 0
{
    let k = tok(s, n).kind;
    if k == TokenKind::Identifier {
        spec_infix_loop(s, n, prec, SpecExpr::Ident(tok(s, n).literal), 0, Seq::empty())
    } else if k == TokenKind::Number {
        let outcome = spec_number_value(tok(s, n).literal);
        let msgs = outcome.1.map_values(|e: NumberError| number_error_msg(tok(s, n).literal, e));
        match outcome.0 {
            Option::Some(v) => spec_infix_loop(s, n, prec, SpecExpr::Num(v), 0, msgs),
            Option::None => (Option::None, 0, msgs),
        }
    } else if k == TokenKind::Minus || k == TokenKind::Band {
        proof {
            lemma_measure_next(s, n);
        }
        let inner = spec_parse_expression(s, n + 1, Precedence::Prefix);
        match inner.0 {
            Option::Some(g) => {
                proof {
                    lemma_measure_next(s, n);
                    lemma_measure_mono(s, (n + 1) as nat, (n + 1 + inner.1) as nat);
                    lemma_measure_nonneg(s, (n + 1 + inner.1) as nat);
                    assert(parser_measure(s, (n + 1 + inner.1) as nat) < parser_measure(s, n));
                }
                spec_infix_loop(
                    s,
                    n + 1 + inner.1,
                    prec,
                    SpecExpr::Prefix(k, Box::new(g)),
                    1 + inner.1,
                    inner.2,
                )
            },
            Option::None => (Option::None, 1 + inner.1, inner.2),
        }
    } else {
        (Option::None, 0, seq![no_prefix_error_msg(k)])
    }
}

/// The climbing loop: while the lookahead is no semicolon, binds tighter
/// than `prec` and has an infix handler, folds it into `lhs`; `adv0` tokens
/// and the diagnostics `errs0` were already consumed by the left operand.
pub open spec fn spec_infix_loop(
    s: Seq<char>,
    n: nat,
    prec: Precedence,
    lhs: SpecExpr,
    adv0: nat,
    errs0: Seq<Seq<char>>,
) -> (Option<SpecExpr>, nat, Seq<Seq<char>>)
    decreases parser_measure(s, n), 0int
    when parser_measure(s, n) >= 0
{
    let pk = tok(s, n + 1).kind;
    if pk == TokenKind::Semicolon || spec_prec_level(spec_precedence_of(pk)) <= spec_prec_level(
        prec,
    ) {
        (Option::Some(lhs), adv0, errs0)
    } else if !has_infix_handler(pk) {
        (Option::Some(lhs), adv0, errs0)
    } else {
        proof {
            if tok(s, n).kind == TokenKind::EOF {
                lemma_tok_eof_stable(s, n);
            }
            lemma_measure_next(s, n);
            lemma_measure_next(s, n + 1);
        }
        let inner = spec_parse_expression(s, n + 2, spec_precedence_of(pk));
        match inner.0 {
            Option::Some(rhs) => {
                proof {
                    if tok(s, n).kind == TokenKind::EOF {
                        lemma_tok_eof_stable(s, n);
                    }
                    lemma_measure_next(s, n);
                    lemma_measure_next(s, n + 1);
                    lemma_measure_mono(s, (n + 2) as nat, (n + 2 + inner.1) as nat);
                    lemma_measure_nonneg(s, (n + 2 + inner.1) as nat);
                    assert(parser_measure(s, (n + 2 + inner.1) as nat) < parser_measure(s, n));
                }
                spec_infix_loop(
                    s,
                    n + 2 + inner.1,
                    prec,
                    SpecExpr::Infix(pk, Box::new(lhs), Box::new(rhs)),
                    adv0 + 2 + inner.1,
                    errs0 + inner.2,
                )
            },
            Option::None => (Option::None, adv0 + 2 + inner.1, errs0 + inner.2),
        }
    }
}

/// What parsing one statement at token `n` yields: the parsed shape or
/// nothing, the tokens consumed, and the diagnostics appended.
pub open spec fn spec_parse_statement(s: Seq<char>, n: nat) -> (Option<SpecStmt>, nat, Seq<
    Seq<char>,
>) {
    let k = tok(s, n).kind;
    if k == TokenKind::Let {
        if tok(s, n + 1).kind != TokenKind::Identifier {
            (
                Option::None,
                0,
                seq![peak_error_msg(TokenKind::Identifier, tok(s, n + 1).kind)],
            )
        } else if tok(s, n + 2).kind != TokenKind::Assign {
            (Option::None, 1, seq![peak_error_msg(TokenKind::Assign, tok(s, n + 2).kind)])
        } else {
            (
                Option::Some(SpecStmt::Let(tok(s, n + 1).literal)),
                2 + skip_sem_adv(s, n + 2),
                Seq::empty(),
            )
        }
    } else if k == TokenKind::Return {
        (Option::Some(SpecStmt::Return), 1 + skip_sem_adv(s, n + 1), Seq::empty())
    } else {
        let r = spec_parse_expression(s, n, Precedence::Lowest);
        match r.0 {
            Option::Some(g) => {
                let adv = if tok(s, n + r.1 + 1).kind == TokenKind::Semicolon {
                    r.1 + 1
                } else {
                    r.1
                };
                (Option::Some(SpecStmt::Expr(g)), adv, r.2)
            },
            Option::None => (Option::None, r.1, r.2),
        }
    }
}

/// What parsing a whole program from token `n` yields: the statements that
/// parsed, in source order, the tokens consumed, and every diagnostic, in
/// order. Parsing stops when the lookahead is `EOF`.
pub open spec fn spec_parse_program(s: Seq<char>, n: nat) -> (Seq<SpecStmt>, nat, Seq<Seq<char>>)
    decreases parser_measure(s, n)
    via spec_parse_program_dec
{
    if tok(s, n + 1).kind == TokenKind::EOF {
        (Seq::empty(), 0, Seq::empty())
    } else {
        let st = spec_parse_statement(s, n);
        let rest = spec_parse_program(s, n + st.1 + 1);
        let first: Seq<SpecStmt> = match st.0 {
            Option::Some(x) => seq![x],
            Option::None => Seq::empty(),
        };
        (first + rest.0, st.1 + 1 + rest.1, st.2 + rest.2)
    }
}

#[via_fn]
proof fn spec_parse_program_dec(s: Seq<char>, n: nat) {
    if tok(s, n + 1).kind != TokenKind::EOF {
        if tok(s, n).kind == TokenKind::EOF {
            lemma_tok_eof_stable(s, n);
        }
        lemma_measure_next(s, n);
        let st = spec_parse_statement(s, n);
        lemma_measure_mono(s, n + 1, n + st.1 + 1);
        lemma_measure_nonneg(s, n + st.1 + 1);
    }
}

/// The texts of a sequence of diagnostic strings.
pub open spec fn msgs_view(v: Seq<String>) -> Seq<Seq<char>> {
    Seq::new(v.len(), |i: int| v[i]@)
}

pub proof fn lemma_prefix_refl(a: Seq<Seq<char>>)
    ensures
        a.is_prefix_of(a),
{
    assert(a =~= a.subrange(0, a.len() as int));
}

pub proof fn lemma_prefix_push(a: Seq<Seq<char>>, x: Seq<char>)
    ensures
        a.is_prefix_of(a.push(x)),
{
    assert(a =~= a.push(x).subrange(0, a.len() as int));
}

pub proof fn lemma_prefix_trans(a: Seq<Seq<char>>, b: Seq<Seq<char>>, c: Seq<Seq<char>>)
    requires
        a.is_prefix_of(b),
        b.is_prefix_of(c),
    ensures
        a.is_prefix_of(c),
{
    assert(c.subrange(0, b.len() as int).subrange(0, a.len() as int) =~= c.subrange(
        0,
        a.len() as int,
    ));
}

fn peak_error_text(expect: TokenKind, got: TokenKind) -> (m: String)
    ensures
        m@ == peak_error_msg(expect, got),
{
    let mut m = String::from_str("expected next token to be ");
    m.append(kind_name(expect));
    m.append(", got ");
    m.append(kind_name(got));
    m.append(" instead");
    proof {
        assert(m@ =~= peak_error_msg(expect, got));
    }
    m
}

fn no_prefix_error_text(k: TokenKind) -> (m: String)
    ensures
        m@ == no_prefix_error_msg(k),
{
    let mut m = String::from_str("no prefix parse function for ");
    m.append(kind_name(k));
    m.append(" found");
    proof {
        assert(m@ =~= no_prefix_error_msg(k));
    }
    m
}

fn number_error_text(lit: &str, e: NumberError) -> (m: String)
    ensures
        m@ == number_error_msg(lit@, e),
{
    let mut m = String::from_str("fail to parse [");
    m.append(lit);
    m.append("]: ");
    m.append(e.message());
    proof {
        assert(m@ =~= number_error_msg(lit@, e));
    }
    m
}

/// Whether `k` has a registered infix handler.
fn has_infix(k: TokenKind) -> (r: bool)
    ensures
        r == has_infix_handler(k),
{
    match k {
        TokenKind::Plus => true,
        TokenKind::Minus => true,
        TokenKind::Asterisk => true,
        TokenKind::Slash => true,
        TokenKind::LT => true,
        TokenKind::GT => true,
        TokenKind::EQ => true,
        TokenKind::NE => true,
        TokenKind::SEQ => true,
        TokenKind::SNE => true,
        _ => false,
    }
}

/// The parser: a lexer it owns exclusively, the current and lookahead
/// tokens, and the diagnostics recorded so far, in order.
pub struct Parser {
    lexer: Lexer,
    current_token: Token,
    peak_token: Token,
    errors: Vec<String>,
    idx: Ghost<nat>,
}

impl Parser {
    /// The source text being parsed.
    pub closed spec fn src(self) -> Seq<char> {
        self.lexer.src()
    }

    /// The index of the current token in the token stream of the source.
    pub closed spec fn idx(self) -> nat {
        self.idx@
    }

    /// The diagnostics recorded so far, in order.
    pub closed spec fn errs(self) -> Seq<Seq<char>> {
        msgs_view(self.errors@)
    }

    /// The parser invariant: the current and lookahead tokens are tokens
    /// number `idx` and `idx + 1` of the source, and the lexer stands ready
    /// to scan token `idx + 2`.
    pub closed spec fn wf(self) -> bool {
        &&& self.lexer.wf()
        &&& self.current_token.kind == tok(self.src(), self.idx()).kind
        &&& self.current_token.literal@ == tok(self.src(), self.idx()).literal
        &&& self.peak_token.kind == tok(self.src(), self.idx() + 1).kind
        &&& self.peak_token.literal@ == tok(self.src(), self.idx() + 1).literal
        &&& self.lexer.pos() == tpos(self.src(), self.idx() + 2)
    }

    /// Takes sole ownership of a fresh lexer and pulls the first two tokens.
    pub fn new(lexer: Lexer) -> (p: Parser)
        requires
            lexer.wf(),
            lexer.pos() == 0,
        ensures
            p.wf(),
            p.src() == lexer.src(),
            p.idx() == 0,
            p.errs() == Seq::<Seq<char>>::empty(),
    {
        let mut lx = lexer;
        let t0 = lx.next_token();
        let t1 = lx.next_token();
        let p = Parser {
            lexer: lx,
            current_token: t0,
            peak_token: t1,
            errors: Vec::new(),
            idx: Ghost(0nat),
        };
        proof {
            assert(tpos(p.src(), 0) == 0);
            assert(tpos(p.src(), 1) == token_at(p.src(), tpos(p.src(), 0)).next);
            assert(tpos(p.src(), 2) == token_at(p.src(), tpos(p.src(), 1)).next);
            assert(p.errs() =~= Seq::<Seq<char>>::empty());
        }
        p
    }

    /// The diagnostics recorded so far, in order.
    pub fn errors(&self) -> (e: &Vec<String>)
        ensures
            msgs_view(e@) == self.errs(),
    {
        &self.errors
    }

    /// Shifts the lookahead token into the current one and pulls a fresh
    /// lookahead from the lexer.
    fn next_token(&mut self)
        requires
            old(self).wf(),
        ensures
            final(self).wf(),
            final(self).src() == old(self).src(),
            final(self).idx() == old(self).idx() + 1,
            final(self).errs() == old(self).errs(),
    {
        proof {
            let s = old(self).src();
            let n = old(self).idx();
            lemma_tpos(s, n + 2);
            assert(tpos(s, n + 3) == token_at(s, tpos(s, n + 2)).next);
        }
        self.current_token = self.peak_token.clone();
        self.peak_token = self.lexer.next_token();
        self.idx = Ghost(self.idx@ + 1);
    }

    /// The precedence of the lookahead token.
    fn peak_precedence(&self) -> (p: Precedence)
        requires
            self.wf(),
        ensures
            p == spec_precedence_of(tok(self.src(), self.idx() + 1).kind),
    {
        precedence_of(self.peak_token.kind)
    }

    /// The precedence of the current token.
    fn current_precedence(&self) -> (p: Precedence)
        requires
            self.wf(),
        ensures
            p == spec_precedence_of(tok(self.src(), self.idx()).kind),
    {
        precedence_of(self.current_token.kind)
    }

    /// Records that the lookahead token was not the expected kind.
    fn peak_error(&mut self, expect: TokenKind)
        requires
            old(self).wf(),
        ensures
            final(self).wf(),
            final(self).src() == old(self).src(),
            final(self).idx() == old(self).idx(),
            final(self).errs() == old(self).errs().push(
                peak_error_msg(expect, tok(old(self).src(), old(self).idx() + 1).kind),
            ),
    {
        let msg = peak_error_text(expect, self.peak_token.kind);
        self.errors.push(msg);
        proof {
            assert(final(self).errs() =~= old(self).errs().push(
                peak_error_msg(expect, tok(old(self).src(), old(self).idx() + 1).kind),
            ));
        }
    }

    /// Records that no registered handler can begin an expression at `kind`.
    fn no_prefix_error(&mut self, kind: TokenKind)
        requires
            old(self).wf(),
        ensures
            final(self).wf(),
            final(self).src() == old(self).src(),
            final(self).idx() == old(self).idx(),
            final(self).errs() == old(self).errs().push(no_prefix_error_msg(kind)),
    {
        let msg = no_prefix_error_text(kind);
        self.errors.push(msg);
        proof {
            assert(final(self).errs() =~= old(self).errs().push(no_prefix_error_msg(kind)));
        }
    }

    /// Advances when the lookahead token has the expected kind; otherwise
    /// records the mismatch and stands still.
    fn expect_peak(&mut self, expect: TokenKind) -> (b: bool)
        requires
            old(self).wf(),
        ensures
            final(self).wf(),
            final(self).src() == old(self).src(),
            b == (tok(old(self).src(), old(self).idx() + 1).kind == expect),
            b ==> final(self).idx() == old(self).idx() + 1 && final(self).errs() == old(
                self,
            ).errs(),
            !b ==> final(self).idx() == old(self).idx() && final(self).errs() == old(
                self,
            ).errs().push(
                peak_error_msg(expect, tok(old(self).src(), old(self).idx() + 1).kind),
            ),
    {
        if self.peak_token.kind == expect {
            self.next_token();
            true
        } else {
            self.peak_error(expect);
            false
        }
    }

    /// The prefix handler for `Identifier`: the current token's text as an
    /// identifier node; the scan stands still.
    fn parse_identifier(parser: &mut Parser) -> (r: Option<Expression>)
        requires
            old(parser).wf(),
        ensures
            final(parser).wf(),
            final(parser).src() == old(parser).src(),
            final(parser).idx() == old(parser).idx(),
            final(parser).errs() == old(parser).errs(),
            match r {
                Option::Some(Expression::Identifier(id)) => id.name@ == tok(
                    old(parser).src(),
                    old(parser).idx(),
                ).literal,
                _ => false,
            },
    {
        let id = Identifier { name: parser.current_token.literal.clone() };
        Option::Some(Expression::Identifier(id))
    }

    /// The prefix handler for `Number`: converts the current token's literal
    /// to its value, recording every conversion error met; a literal with no
    /// value yields nothing.
    #[verifier::loop_isolation(false)]
    fn parse_number(parser: &mut Parser) -> (r: Option<Expression>)
        requires
            old(parser).wf(),
        ensures
            final(parser).wf(),
            final(parser).src() == old(parser).src(),
            final(parser).idx() == old(parser).idx(),
            ({
                let lit = tok(old(parser).src(), old(parser).idx()).literal;
                let outcome = spec_number_value(lit);
                &&& final(parser).errs() == old(parser).errs() + outcome.1.map_values(
                    |e: NumberError| number_error_msg(lit, e),
                )
                &&& match (r, outcome.0) {
                    (Option::Some(Expression::Number(n)), Option::Some(sv)) => n.value@ == sv,
                    (Option::None, Option::None) => true,
                    _ => false,
                }
            }),
    {
        let ghost lit = tok(old(parser).src(), old(parser).idx()).literal;
        let ghost f = |e: NumberError| number_error_msg(lit, e);
        let outcome = number_value(parser.current_token.literal.as_str());
        let n = outcome.errors.len();
        let mut i: usize = 0;
        proof {
            assert(outcome.errors@.subrange(0, 0).map_values(f) =~= Seq::<Seq<char>>::empty());
            assert(parser.errs() =~= old(parser).errs() + outcome.errors@.subrange(
                0,
                0,
            ).map_values(f));
        }
        while i < n
            invariant
                i <= n == outcome.errors@.len(),
                parser.wf(),
                parser.src() == old(parser).src(),
                parser.idx() == old(parser).idx(),
                parser.current_token.literal@ == lit,
                parser.errs() == old(parser).errs() + outcome.errors@.subrange(
                    0,
                    i as int,
                ).map_values(f),
            decreases n - i,
        {
            let ghost before = parser.errs();
            let msg = number_error_text(parser.current_token.literal.as_str(), outcome.errors[i]);
            parser.errors.push(msg);
            i = i + 1;
            proof {
                assert(parser.errs() =~= before.push(msg@));
                assert(msg@ == f(outcome.errors@[i - 1]));
                assert(outcome.errors@.subrange(0, i as int).map_values(f)
                    =~= outcome.errors@.subrange(0, i - 1).map_values(f).push(
                    f(outcome.errors@[i - 1]),
                ));
                assert(parser.errs() =~= old(parser).errs() + outcome.errors@.subrange(
                    0,
                    i as int,
                ).map_values(f));
            }
        }
        proof {
            assert(outcome.errors@.subrange(0, n as int) =~= outcome.errors@);
        }
        match outcome.value {
            Option::Some(v) => Option::Some(Expression::Number(NumberLiteral { value: v })),
            Option::None => Option::None,
        }
    }

    /// The prefix handler for `-` and `!`: captures the operator, advances,
    /// and parses the operand at `Prefix` precedence.
    fn parse_prefix_expression(parser: &mut Parser) -> (r: Option<Expression>)
        requires
            old(parser).wf(),
            prefix_op_wf(tok(old(parser).src(), old(parser).idx()).kind),
        ensures
            final(parser).wf(),
            final(parser).src() == old(parser).src(),
            final(parser).idx() >= old(parser).idx() + 1,
            old(parser).errs().is_prefix_of(final(parser).errs()),
            match r {
                Option::Some(Expression::Prefix(p)) => p.op == tok(
                    old(parser).src(),
                    old(parser).idx(),
                ).kind && expr_wf(*p.expression),
                Option::Some(_) => false,
                Option::None => final(parser).errs().len() > old(parser).errs().len(),
            },
            ({
                let s = old(parser).src();
                let n = old(parser).idx();
                let inner = spec_parse_expression(s, n + 1, Precedence::Prefix);
                &&& final(parser).idx() == n + 1 + inner.1
                &&& final(parser).errs() == old(parser).errs() + inner.2
                &&& match (r, inner.0) {
                    (Option::Some(Expression::Prefix(p)), Option::Some(g)) => expr_models(
                        *p.expression,
                        g,
                    ),
                    (Option::None, Option::None) => true,
                    _ => false,
                }
            }),
        decreases parser_measure(old(parser).src(), old(parser).idx()), 0int,
    {
        proof {
            lemma_measure_nonneg(old(parser).src(), old(parser).idx() + 1);
        }
        proof {
            lemma_measure_next(old(parser).src(), old(parser).idx());
        }
        let op = parser.current_token.kind;
        parser.next_token();
        match parser.parse_expression(Precedence::Prefix) {
            Option::Some(e) => Option::Some(
                Expression::Prefix(PrefixExpression { op, expression: Box::new(e) }),
            ),
            Option::None => Option::None,
        }
    }

    /// The infix handler: moves the operator into the current token, captures
    /// its kind and precedence, advances, and parses the right operand at
    /// that captured precedence — which makes equal-precedence operators
    /// associate left-to-right.
    fn parse_infix_expression(parser: &mut Parser, lhs: Expression) -> (r: Option<Expression>)
        requires
            old(parser).wf(),
            has_infix_handler(tok(old(parser).src(), old(parser).idx() + 1).kind),
            expr_wf(lhs),
        ensures
            final(parser).wf(),
            final(parser).src() == old(parser).src(),
            final(parser).idx() >= old(parser).idx() + 2,
            old(parser).errs().is_prefix_of(final(parser).errs()),
            match r {
                Option::Some(Expression::Infix(ix)) => ix.op == tok(
                    old(parser).src(),
                    old(parser).idx() + 1,
                ).kind && *ix.lhs == lhs && expr_wf(*ix.rhs),
                Option::Some(_) => false,
                Option::None => final(parser).errs().len() > old(parser).errs().len(),
            },
            ({
                let s = old(parser).src();
                let n = old(parser).idx();
                let inner = spec_parse_expression(
                    s,
                    n + 2,
                    spec_precedence_of(tok(s, n + 1).kind),
                );
                &&& final(parser).idx() == n + 2 + inner.1
                &&& final(parser).errs() == old(parser).errs() + inner.2
                &&& match (r, inner.0) {
                    (Option::Some(Expression::Infix(ix)), Option::Some(g)) => expr_models(
                        *ix.rhs,
                        g,
                    ),
                    (Option::None, Option::None) => true,
                    _ => false,
                }
            }),
        decreases parser_measure(old(parser).src(), old(parser).idx()), 0int,
    {
        proof {
            lemma_measure_nonneg(old(parser).src(), old(parser).idx() + 2);
        }
        proof {
            let s = old(parser).src();
            let n = old(parser).idx();
            if tok(s, n).kind == TokenKind::EOF {
                lemma_tok_eof_stable(s, n);
            }
            lemma_measure_next(s, n);
            lemma_measure_next(s, n + 1);
        }
        parser.next_token();
        let op = parser.current_token.kind;
        let precedence = parser.current_precedence();
        parser.next_token();
        match parser.parse_expression(precedence) {
            Option::Some(rhs) => Option::Some(
                Expression::Infix(InfixExpression { op, lhs: Box::new(lhs), rhs: Box::new(rhs) }),
            ),
            Option::None => Option::None,
        }
    }

    /// Precedence climbing: dispatches on the current token's prefix handler,
    /// then, while the lookahead binds tighter than `precedence` (and is not
    /// a semicolon), folds infix operators into the left operand. The result,
    /// the tokens consumed and the diagnostics appended are exactly those of
    /// [`spec_parse_expression`].
    #[verifier::rlimit(100)]
    fn parse_expression(&mut self, precedence: Precedence) -> (r: Option<Expression>)
        requires
            old(self).wf(),
        ensures
            final(self).wf(),
            final(self).src() == old(self).src(),
            final(self).idx() >= old(self).idx(),
            old(self).errs().is_prefix_of(final(self).errs()),
            match r {
                Option::Some(e) => expr_wf(e),
                Option::None => final(self).errs().len() > old(self).errs().len(),
            },
            ({
                let sp = spec_parse_expression(old(self).src(), old(self).idx(), precedence);
                &&& final(self).idx() == old(self).idx() + sp.1
                &&& final(self).errs() == old(self).errs() + sp.2
                &&& match (r, sp.0) {
                    (Option::Some(e), Option::Some(g)) => expr_models(e, g),
                    (Option::None, Option::None) => true,
                    _ => false,
                }
            }),
        decreases parser_measure(old(self).src(), old(self).idx()), 1int,
    {
        let ghost s0 = old(self).src();
        let ghost n0 = old(self).idx();
        let ghost sp = spec_parse_expression(s0, n0, precedence);
        proof {
            lemma_prefix_refl(old(self).errs());
            lemma_measure_nonneg(s0, n0);
        }
        let kind = self.current_token.kind;
        let lhs_opt: Option<Expression> = match kind {
            TokenKind::Identifier => Parser::parse_identifier(self),
            TokenKind::Number => Parser::parse_number(self),
            TokenKind::Minus => Parser::parse_prefix_expression(self),
            TokenKind::Band => Parser::parse_prefix_expression(self),
            _ => {
                self.no_prefix_error(kind);
                proof {
                    lemma_prefix_push(old(self).errs(), no_prefix_error_msg(kind));
                    assert(self.errs() =~= old(self).errs() + seq![no_prefix_error_msg(kind)]);
                }
                return Option::None;
            },
        };
        // the ghost model of the prefix handler's result
        let ghost mut g_lhs: SpecExpr = SpecExpr::NoOp;
        proof {
            if kind == TokenKind::Identifier {
                g_lhs = SpecExpr::Ident(tok(s0, n0).literal);
            }
            if kind == TokenKind::Number {
                let lit = tok(s0, n0).literal;
                let outcome = spec_number_value(lit);
                if outcome.0 is Some {
                    g_lhs = SpecExpr::Num(outcome.0->0);
                }
                if outcome.0 is None {
                    assert(outcome.1.len() > 0);
                    assert(self.errs().len() > old(self).errs().len());
                }
                assert(old(self).errs().is_prefix_of(self.errs())) by {
                    assert(old(self).errs() =~= self.errs().subrange(
                        0,
                        old(self).errs().len() as int,
                    ));
                }
            }
            if kind == TokenKind::Minus || kind == TokenKind::Band {
                let inner = spec_parse_expression(s0, n0 + 1, Precedence::Prefix);
                if inner.0 is Some {
                    g_lhs = SpecExpr::Prefix(kind, Box::new(inner.0->0));
                }
            }
        }
        let mut lhs = match lhs_opt {
            Option::Some(e) => e,
            Option::None => {
                return Option::None;
            },
        };
        // the appended diagnostics so far; the loop folds operators into
        // `lhs` exactly as `spec_infix_loop` does
        let ghost mut acc: Seq<Seq<char>> = self.errs().subrange(
            old(self).errs().len() as int,
            self.errs().len() as int,
        );
        proof {
            assert(self.errs() =~= old(self).errs() + acc);
            if kind == TokenKind::Identifier {
                assert(acc =~= Seq::<Seq<char>>::empty());
            } else if kind == TokenKind::Number {
                let lit = tok(s0, n0).literal;
                let outcome = spec_number_value(lit);
                let msgs = outcome.1.map_values(|e: NumberError| number_error_msg(lit, e));
                assert(acc =~= msgs);
            } else {
                let inner = spec_parse_expression(s0, n0 + 1, Precedence::Prefix);
                assert(acc =~= inner.2);
            }
            lemma_measure_nonneg(s0, self.idx());
            assert(sp == spec_infix_loop(
                s0,
                self.idx(),
                precedence,
                g_lhs,
                (self.idx() - n0) as nat,
                acc,
            ));
        }
        while self.peak_token.kind != TokenKind::Semicolon && prec_less(
            precedence,
            self.peak_precedence(),
        )
            invariant
                self.wf(),
                s0 == old(self).src(),
                n0 == old(self).idx(),
                sp == spec_parse_expression(s0, n0, precedence),
                self.src() == s0,
                self.idx() >= n0,
                old(self).errs().is_prefix_of(self.errs()),
                self.errs() == old(self).errs() + acc,
                expr_wf(lhs),
                expr_models(lhs, g_lhs),
                sp == spec_infix_loop(
                    s0,
                    self.idx(),
                    precedence,
                    g_lhs,
                    (self.idx() - n0) as nat,
                    acc,
                ),
                parser_measure(s0, self.idx()) >= 0,
            decreases parser_measure(self.src(), self.idx()),
        {
            let pk = self.peak_token.kind;
            if !has_infix(pk) {
                return Option::Some(lhs);
            }
            let ghost n1 = self.idx();
            let ghost mid_errs = self.errs();
            proof {
                if tok(s0, n1).kind == TokenKind::EOF {
                    lemma_tok_eof_stable(s0, n1);
                }
                lemma_measure_next(s0, n1);
                lemma_measure_next(s0, n1 + 1);
                lemma_measure_mono(s0, n0, n1);
            }
            let ghost inner = spec_parse_expression(s0, n1 + 2, spec_precedence_of(pk));
            match Parser::parse_infix_expression(self, lhs) {
                Option::Some(e) => {
                    lhs = e;
                    proof {
                        g_lhs = SpecExpr::Infix(pk, Box::new(g_lhs), Box::new(inner.0->0));
                        acc = acc + inner.2;
                        assert(self.errs() =~= old(self).errs() + acc);
                    }
                },
                Option::None => {
                    proof {
                        lemma_prefix_trans(old(self).errs(), mid_errs, self.errs());
                        assert(self.errs() =~= old(self).errs() + (acc + inner.2));
                    }
                    return Option::None;
                },
            }
            proof {
                lemma_measure_mono(s0, (n1 + 2) as nat, self.idx());
                lemma_measure_nonneg(s0, self.idx());
                lemma_prefix_trans(old(self).errs(), mid_errs, self.errs());
            }
        }
        Option::Some(lhs)
    }

    /// Advances until the current token is a semicolon (or the input ends),
    /// leaving the parser on that token: `skip_sem_adv` tokens are consumed.
    fn skip_to_semicolon_now(&mut self)
        requires
            old(self).wf(),
        ensures
            final(self).wf(),
            final(self).src() == old(self).src(),
            final(self).errs() == old(self).errs(),
            final(self).idx() == old(self).idx() + skip_sem_adv(
                old(self).src(),
                old(self).idx(),
            ),
    {
        proof {
            lemma_measure_nonneg(old(self).src(), old(self).idx());
        }
        while self.current_token.kind != TokenKind::Semicolon && self.current_token.kind
            != TokenKind::EOF
            invariant
                self.wf(),
                self.src() == old(self).src(),
                self.errs() == old(self).errs(),
                old(self).idx() <= self.idx(),
                parser_measure(self.src(), self.idx()) >= 0,
                skip_sem_adv(old(self).src(), old(self).idx()) == (self.idx() - old(
                    self,
                ).idx()) + skip_sem_adv(self.src(), self.idx()),
            decreases parser_measure(self.src(), self.idx()),
        {
            proof {
                lemma_measure_next(self.src(), self.idx());
            }
            self.next_token();
        }
    }

    /// Parses `let <identifier> = ...;`. The lookahead must be an identifier
    /// (the target name) and the one after it the assignment sign, each
    /// recorded as an `expected next token` diagnostic when it is not; the
    /// right-hand side is not parsed by the current grammar — the statement
    /// is consumed through its terminating semicolon (or to the end of
    /// input) and carries a placeholder value.
    fn parse_let_statement(&mut self) -> (r: Option<Statement>)
        requires
            old(self).wf(),
        ensures
            final(self).wf(),
            final(self).src() == old(self).src(),
            final(self).idx() >= old(self).idx(),
            ({
                let s = old(self).src();
                let n = old(self).idx();
                if tok(s, n + 1).kind != TokenKind::Identifier {
                    &&& r is None
                    &&& final(self).idx() == n
                    &&& final(self).errs() == old(self).errs().push(
                        peak_error_msg(TokenKind::Identifier, tok(s, n + 1).kind),
                    )
                } else if tok(s, n + 2).kind != TokenKind::Assign {
                    &&& r is None
                    &&& final(self).idx() == n + 1
                    &&& final(self).errs() == old(self).errs().push(
                        peak_error_msg(TokenKind::Assign, tok(s, n + 2).kind),
                    )
                } else {
                    &&& final(self).errs() == old(self).errs()
                    &&& final(self).idx() == n + 2 + skip_sem_adv(s, n + 2)
                    &&& match r {
                        Option::Some(Statement::Let(l)) => l.id.name@ == tok(s, n + 1).literal
                            && l.value matches Expression::NoOp(_),
                        _ => false,
                    }
                }
            }),
    {
        if !self.expect_peak(TokenKind::Identifier) {
            return Option::None;
        }
        let id = Identifier { name: self.current_token.literal.clone() };
        if !self.expect_peak(TokenKind::Assign) {
            return Option::None;
        }
        self.skip_to_semicolon_now();
        let s = LetStatement { id, value: Expression::NoOp(NoOpExpression {}) };
        Option::Some(Statement::Let(s))
    }

    /// Parses `return ...;`. The returned value is not parsed by the current
    /// grammar — the statement is consumed through its terminating semicolon
    /// (or to the end of input) and carries a placeholder value.
    fn parse_return_statement(&mut self) -> (r: Option<Statement>)
        requires
            old(self).wf(),
        ensures
            final(self).wf(),
            final(self).src() == old(self).src(),
            final(self).errs() == old(self).errs(),
            final(self).idx() == old(self).idx() + 1 + skip_sem_adv(
                old(self).src(),
                old(self).idx() + 1,
            ),
            match r {
                Option::Some(Statement::Return(rt)) => rt.value matches Expression::NoOp(_),
                _ => false,
            },
    {
        self.next_token();
        self.skip_to_semicolon_now();
        let s = ReturnStatement { value: Expression::NoOp(NoOpExpression {}) };
        Option::Some(Statement::Return(s))
    }

    /// Parses one expression at `Lowest` precedence as a statement; a
    /// semicolon after it is consumed when present (the terminator is
    /// optional for the last statement of the input).
    fn parse_expression_statement(&mut self) -> (r: Option<Statement>)
        requires
            old(self).wf(),
        ensures
            final(self).wf(),
            final(self).src() == old(self).src(),
            final(self).idx() >= old(self).idx(),
            old(self).errs().is_prefix_of(final(self).errs()),
            match r {
                Option::Some(st) => stmt_wf(st) && st matches Statement::Expression(_),
                Option::None => final(self).errs().len() > old(self).errs().len(),
            },
            ({
                let s = old(self).src();
                let n = old(self).idx();
                let sp = spec_parse_expression(s, n, Precedence::Lowest);
                &&& final(self).errs() == old(self).errs() + sp.2
                &&& final(self).idx() == n + (if sp.0 is Some && tok(s, n + sp.1 + 1).kind
                    == TokenKind::Semicolon {
                    sp.1 + 1
                } else {
                    sp.1
                })
                &&& match (r, sp.0) {
                    (Option::Some(Statement::Expression(es)), Option::Some(g)) => expr_models(
                        es.expression,
                        g,
                    ),
                    (Option::None, Option::None) => true,
                    _ => false,
                }
            }),
    {
        match self.parse_expression(Precedence::Lowest) {
            Option::Some(e) => {
                if self.peak_token.kind == TokenKind::Semicolon {
                    self.next_token();
                }
                Option::Some(Statement::Expression(ExpressionStatement { expression: e }))
            },
            Option::None => Option::None,
        }
    }

    /// Dispatches on the current token: `let` and `return` statements, and
    /// expression statements for everything else. A statement that fails
    /// mid-parse yields nothing and leaves at least one diagnostic. The
    /// result, the tokens consumed and the diagnostics appended are exactly
    /// those of [`spec_parse_statement`].
    pub fn parse_statement(&mut self) -> (r: Option<Statement>)
        requires
            old(self).wf(),
        ensures
            final(self).wf(),
            final(self).src() == old(self).src(),
            final(self).idx() >= old(self).idx(),
            old(self).errs().is_prefix_of(final(self).errs()),
            match r {
                Option::Some(st) => stmt_wf(st),
                Option::None => final(self).errs().len() > old(self).errs().len(),
            },
            ({
                let sp = spec_parse_statement(old(self).src(), old(self).idx());
                &&& final(self).idx() == old(self).idx() + sp.1
                &&& final(self).errs() == old(self).errs() + sp.2
                &&& match (r, sp.0) {
                    (Option::Some(st), Option::Some(g)) => stmt_models(st, g),
                    (Option::None, Option::None) => true,
                    _ => false,
                }
            }),
    {
        proof {
            lemma_prefix_refl(old(self).errs());
        }
        let ghost s = old(self).src();
        let ghost n = old(self).idx();
        let r = match self.current_token.kind {
            TokenKind::Let => self.parse_let_statement(),
            TokenKind::Return => self.parse_return_statement(),
            _ => self.parse_expression_statement(),
        };
        proof {
            let k = tok(s, n).kind;
            if k == TokenKind::Let {
                if tok(s, n + 1).kind != TokenKind::Identifier {
                    let msg = peak_error_msg(TokenKind::Identifier, tok(s, n + 1).kind);
                    lemma_prefix_push(old(self).errs(), msg);
                    assert(self.errs() =~= old(self).errs() + seq![msg]);
                } else if tok(s, n + 2).kind != TokenKind::Assign {
                    let msg = peak_error_msg(TokenKind::Assign, tok(s, n + 2).kind);
                    lemma_prefix_push(old(self).errs(), msg);
                    assert(self.errs() =~= old(self).errs() + seq![msg]);
                } else {
                    assert(self.errs() =~= old(self).errs() + Seq::<Seq<char>>::empty());
                }
            } else if k == TokenKind::Return {
                assert(self.errs() =~= old(self).errs() + Seq::<Seq<char>>::empty());
            }
        }
        r
    }

    /// Parses statements until the lookahead is `EOF`, collecting the ones
    /// that parse in source order and keeping the diagnostics of the ones
    /// that do not, in order: exactly the statements and diagnostics of
    /// [`spec_parse_program`]. Every statement of the result is well formed,
    /// so rendering the program cannot meet an unknown operator.
    #[verifier::loop_isolation(false)]
    #[verifier::rlimit(100)]
    pub fn parse_program(&mut self) -> (p: Program)
        requires
            old(self).wf(),
        ensures
            final(self).wf(),
            final(self).src() == old(self).src(),
            program_wf(p),
            old(self).errs().is_prefix_of(final(self).errs()),
            tok(final(self).src(), final(self).idx() + 1).kind == TokenKind::EOF,
            ({
                let pp = spec_parse_program(old(self).src(), old(self).idx());
                &&& final(self).idx() == old(self).idx() + pp.1
                &&& final(self).errs() == old(self).errs() + pp.2
                &&& p.statements@.len() == pp.0.len()
                &&& forall|i: int|
                    0 <= i < pp.0.len() ==> stmt_models(#[trigger] p.statements@[i], pp.0[i])
            }),
    {
        let ghost s = old(self).src();
        let ghost n0 = old(self).idx();
        let ghost pp = spec_parse_program(s, n0);
        proof {
            lemma_prefix_refl(old(self).errs());
            lemma_measure_nonneg(s, n0);
        }
        let mut statements: Vec<Statement> = Vec::new();
        let ghost mut done: Seq<SpecStmt> = Seq::empty();
        let ghost mut acc: Seq<Seq<char>> = Seq::empty();
        proof {
            assert(self.errs() =~= old(self).errs() + acc);
            assert(done + spec_parse_program(s, self.idx()).0 =~= spec_parse_program(
                s,
                self.idx(),
            ).0);
        }
        while self.peak_token.kind != TokenKind::EOF
            invariant
                self.wf(),
                self.src() == s,
                self.idx() >= n0,
                old(self).errs().is_prefix_of(self.errs()),
                self.errs() == old(self).errs() + acc,
                statements@.len() == done.len(),
                forall|i: int|
                    0 <= i < done.len() ==> stmt_wf(#[trigger] statements@[i]) && stmt_models(
                        statements@[i],
                        done[i],
                    ),
                pp.0 == done + spec_parse_program(s, self.idx()).0,
                pp.1 == (self.idx() - n0) + spec_parse_program(s, self.idx()).1,
                pp.2 == acc + spec_parse_program(s, self.idx()).2,
                parser_measure(s, self.idx()) >= 0,
            decreases parser_measure(self.src(), self.idx()),
        {
            let ghost n1 = self.idx();
            let ghost rest = spec_parse_program(s, n1);
            let ghost st = spec_parse_statement(s, n1);
            proof {
                if tok(s, n1).kind == TokenKind::EOF {
                    lemma_tok_eof_stable(s, n1);
                }
                lemma_measure_next(s, n1);
            }
            if let Option::Some(statement) = self.parse_statement() {
                statements.push(statement);
                proof {
                    done = done.push(st.0->0);
                }
            }
            let ghost errs1 = self.errs();
            self.next_token();
            proof {
                acc = acc + st.2;
                assert(self.errs() =~= old(self).errs() + acc);
                if st.0 is Some {
                    assert(done.drop_last() + seq![st.0->0] =~= done);
                } else {
                    assert(done + Seq::<SpecStmt>::empty() =~= done);
                }
                assert(pp.0 =~= done + spec_parse_program(s, self.idx()).0);
                assert(pp.2 =~= acc + spec_parse_program(s, self.idx()).2);
                if self.idx() > n1 + 1 {
                    lemma_measure_mono(s, n1 + 1, self.idx());
                }
                lemma_measure_nonneg(s, self.idx());
                lemma_prefix_trans(old(self).errs(), errs1, self.errs());
            }
        }
        proof {
            assert(pp.0 =~= done);
            assert(pp.2 =~= acc);
        }
        Program { statements }
    }
}

} // verus!

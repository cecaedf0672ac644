//! The syntax tree that the parser hands to the assembler.

use vstd::prelude::*;
use crate::ident::{Ident, Str};
use crate::pattern::display::{ast_text, var_texts};
use crate::pattern::parse::{ast_view, naming, AstView, Name};
use crate::text::{int_text, nat_text, push_int, push_nat, push_str, quote, quoted};
use crate::value::Int;

pub mod grammar;

pub use self::grammar::{parse_block_body, parse_def, parse_module};



verus! {

/// A whole source file: the statements of its `BEGIN` block and its
/// function definitions.
#[derive(Debug)]
pub struct Module {
    pub begin: Vec<Stmt>,
    pub defs: Vec<Def>,
}

/// A function definition.
#[derive(Debug)]
pub struct Def {
    pub name: Ident,
    pub args: Args,
    pub body: Vec<Stmt>,
}

/// A statement.
#[derive(Debug)]
pub enum Stmt {
    My { lhs: Ident, rhs: Option<Expr> },
    Assign { lhs: Expr, rhs: Expr },
    Return { rhs: Option<Expr> },
    Assert { rhs: Expr },
    If { clauses: Vec<(Expr, Vec<Stmt>)>, last: Vec<Stmt> },
    While { test: Expr, body: Vec<Stmt> },
    Bare { rhs: Expr },
    Nop,
}

/// An expression.
#[derive(Debug)]
pub enum Expr {
    Parens(Box<Expr>),
    Local(Ident),
    Global(Ident),
    Group(u8),
    Call { name: Ident, args: Vec<Expr> },
    Literal(Literal),
    Str(Vec<Expr>),
    List(Vec<Expr>),
    Record(Vec<(Ident, Expr)>),
    Binop { lhs: Box<Expr>, op: Binop, rhs: Box<Expr> },
    And { lhs: Box<Expr>, rhs: Box<Expr> },
    Or { lhs: Box<Expr>, rhs: Box<Expr> },
    Not(Box<Expr>),
}

/// The parameters of a function definition.
#[derive(Debug)]
pub struct Args(pub Vec<Ident>);

/// A binary operator of the source language.
#[derive(Copy, Clone, Debug, PartialEq, Eq, Structural)]
pub enum Binop {
    Add,
    Sub,
    Div,
    Mul,
    Idx,
    Match,
    Equal,
    NotEqual,
}

/// A literal.
#[derive(Debug)]
pub enum Literal {
    Int(Int),
    Str(Str),
    Ident(Ident),
    Pattern(crate::pattern::Ast),
    Nil,
}

impl Binop {
    /// The expression that applies the operator to two operands.
    pub fn apply(self, lhs: Expr, rhs: Expr) -> (e: Expr)
        ensures
            e == (Expr::Binop { lhs: Box::new(lhs), op: self, rhs: Box::new(rhs) }),
    {
        Expr::Binop { lhs: Box::new(lhs), op: self, rhs: Box::new(rhs) }
    }

    /// How the operator is written between its operands; indexing is
    /// written around its right operand.
    pub open spec fn infix(self) -> Seq<char> {
        match self {
            Binop::Add => " + "@,
            Binop::Sub => " - "@,
            Binop::Div => " / "@,
            Binop::Mul => " * "@,
            Binop::Idx => "["@,
            Binop::Match => " =~ "@,
            Binop::Equal => " eq "@,
            Binop::NotEqual => " ne "@,
        }
    }
}

/// The source form of a literal.
pub open spec fn literal_text(lit: Literal) -> Seq<char> {
    match lit {
        Literal::Nil => "()"@,
        Literal::Int(i) => int_text(i as int),
        Literal::Str(s) => quoted(s@),
        Literal::Ident(n) => ":"@ + n@,
        Literal::Pattern(p) => ast_text(var_texts(), p),
    }
}

/// The source form of an expression, as an assertion that fails shows it.
pub open spec fn expr_text(e: Expr) -> Seq<char>
    decreases e,
{
    match e {
        Expr::Parens(inner) => "("@ + expr_text(*inner) + ")"@,
        Expr::Literal(lit) => literal_text(lit),
        Expr::And { lhs, rhs } => expr_text(*lhs) + " and "@ + expr_text(*rhs),
        Expr::Or { lhs, rhs } => expr_text(*lhs) + " or "@ + expr_text(*rhs),
        Expr::Not(rhs) => "not "@ + expr_text(*rhs),
        Expr::Binop { lhs, op, rhs } => if op == Binop::Idx {
            expr_text(*lhs) + "["@ + expr_text(*rhs) + "]"@
        } else {
            expr_text(*lhs) + op.infix() + expr_text(*rhs)
        },
        Expr::Local(id) => "$"@ + id@,
        Expr::Global(id) => "%"@ + id@,
        Expr::Str(_) => "{interpolated string}"@,
        Expr::Group(num) => "$"@ + nat_text(num as nat),
        Expr::List(items) => "["@ + exprs_text(items@) + "]"@,
        Expr::Record(_) => "{record}"@,
        Expr::Call { name, args } => name@ + "("@ + exprs_text(args@) + ")"@,
    }
}

/// The source forms of expressions, separated by `, `.
pub open spec fn exprs_text(es: Seq<Expr>) -> Seq<char>
    decreases es, es.len(),
{
    if es.len() == 0 {
        Seq::empty()
    } else if es.len() == 1 {
        expr_text(es.last())
    } else {
        exprs_text(es.drop_last()) + ", "@ + expr_text(es.last())
    }
}

impl Literal {
    /// Renders the literal in its source form.
    pub fn to_string(&self) -> (s: String)
        ensures
            s@ == literal_text(*self),
    {
        let mut s = String::new();
        match self {
            Literal::Nil => push_str(&mut s, "()"),
            Literal::Int(i) => push_int(&mut s, *i as i64),
            Literal::Str(text) => {
                let q = quote(text.as_str());
                push_str(&mut s, q.as_str());
            },
            Literal::Ident(n) => {
                push_str(&mut s, ":");
                push_str(&mut s, n.as_str());
            },
            Literal::Pattern(p) => {
                let text = p.to_string();
                push_str(&mut s, text.as_str());
            },
        }
        s
    }
}

/// Appends the source forms of expressions, separated by `, `.
fn uncomma(out: &mut String, items: &Vec<Expr>)
    ensures
        final(out)@ == old(out)@ + exprs_text(items@),
    decreases items@,
{
    let mut i: usize = 0;
    while i < items.len()
        invariant
            i <= items.len(),
            out@ == old(out)@ + exprs_text(items@.take(i as int)),
        decreases items.len() - i,
    {
        proof {
            assert(items@.take(i + 1).drop_last() =~= items@.take(i as int));
        }
        if i > 0 {
            push_str(out, ", ");
        }
        items[i].render(out);
        i = i + 1;
    }
    assert(items@.take(items.len() as int) =~= items@);
}

impl Expr {
    /// Renders the expression in its source form.
    pub fn to_string(&self) -> (s: String)
        ensures
            s@ == expr_text(*self),
    {
        let mut s = String::new();
        self.render(&mut s);
        s
    }

    /// Appends the source form of the expression to `out`.
    pub fn render(&self, out: &mut String)
        ensures
            final(out)@ == old(out)@ + expr_text(*self),
        decreases *self,
    {
        match self {
            Expr::Parens(inner) => {
                push_str(out, "(");
                inner.render(out);
                push_str(out, ")");
            },
            Expr::Literal(lit) => {
                let text = lit.to_string();
                push_str(out, text.as_str());
            },
            Expr::And { lhs, rhs } => {
                lhs.render(out);
                push_str(out, " and ");
                rhs.render(out);
            },
            Expr::Or { lhs, rhs } => {
                lhs.render(out);
                push_str(out, " or ");
                rhs.render(out);
            },
            Expr::Not(rhs) => {
                push_str(out, "not ");
                rhs.render(out);
            },
            Expr::Binop { lhs, op, rhs } => {
                lhs.render(out);
                match op {
                    Binop::Add => push_str(out, " + "),
                    Binop::Sub => push_str(out, " - "),
                    Binop::Div => push_str(out, " / "),
                    Binop::Mul => push_str(out, " * "),
                    Binop::Idx => push_str(out, "["),
                    Binop::Match => push_str(out, " =~ "),
                    Binop::Equal => push_str(out, " eq "),
                    Binop::NotEqual => push_str(out, " ne "),
                }
                rhs.render(out);
                match op {
                    Binop::Idx => push_str(out, "]"),
                    _ => {},
                }
            },
            Expr::Local(id) => {
                push_str(out, "$");
                push_str(out, id.as_str());
            },
            Expr::Global(id) => {
                push_str(out, "%");
                push_str(out, id.as_str());
            },
            Expr::Str(_) => push_str(out, "{interpolated string}"),
            Expr::Group(num) => {
                push_str(out, "$");
                push_nat(out, *num as u64);
            },
            Expr::List(items) => {
                push_str(out, "[");
                uncomma(out, items);
                push_str(out, "]");
            },
            Expr::Record(_) => push_str(out, "{record}"),
            Expr::Call { name, args } => {
                push_str(out, name.as_str());
                push_str(out, "(");
                uncomma(out, args);
                push_str(out, ")");
            },
        }
    }
}

/// The mathematical value of a literal.
pub enum LiteralView {
    Int(Int),
    Str(Seq<char>),
    Ident(Seq<char>),
    Pattern(AstView<Name>),
    Nil,
}

/// The mathematical value of an expression.
#[allow(inconsistent_fields)]
pub enum ExprView {
    Parens(Box<ExprView>),
    Local(Seq<char>),
    Global(Seq<char>),
    Group(u8),
    Call { name: Seq<char>, args: Seq<ExprView> },
    Literal(LiteralView),
    Str(Seq<ExprView>),
    List(Seq<ExprView>),
    Record(Seq<(Seq<char>, ExprView)>),
    Binop { lhs: Box<ExprView>, op: Binop, rhs: Box<ExprView> },
    And { lhs: Box<ExprView>, rhs: Box<ExprView> },
    Or { lhs: Box<ExprView>, rhs: Box<ExprView> },
    Not(Box<ExprView>),
}

/// The mathematical value of a statement.
#[allow(inconsistent_fields)]
pub enum StmtView {
    My { lhs: Seq<char>, rhs: Option<ExprView> },
    Assign { lhs: ExprView, rhs: ExprView },
    Return { rhs: Option<ExprView> },
    Assert { rhs: ExprView },
    If { clauses: Seq<(ExprView, Seq<StmtView>)>, last: Seq<StmtView> },
    While { test: ExprView, body: Seq<StmtView> },
    Bare { rhs: ExprView },
    Nop,
}

/// The mathematical value of a function definition.
pub struct DefView {
    pub name: Seq<char>,
    pub args: Seq<Seq<char>>,
    pub body: Seq<StmtView>,
}

/// The mathematical value of a source file.
pub struct SourceView {
    pub begin: Seq<StmtView>,
    pub defs: Seq<DefView>,
}

/// The value of a literal.
pub open spec fn literal_view(lit: Literal) -> LiteralView {
    match lit {
        Literal::Int(i) => LiteralView::Int(i),
        Literal::Str(s) => LiteralView::Str(s@),
        Literal::Ident(id) => LiteralView::Ident(id@),
        Literal::Pattern(p) => LiteralView::Pattern(ast_view(naming(), p)),
        Literal::Nil => LiteralView::Nil,
    }
}

/// The value of an expression.
pub open spec fn expr_view(e: Expr) -> ExprView
    decreases e,
{
    match e {
        Expr::Parens(inner) => ExprView::Parens(Box::new(expr_view(*inner))),
        Expr::Local(id) => ExprView::Local(id@),
        Expr::Global(id) => ExprView::Global(id@),
        Expr::Group(n) => ExprView::Group(n),
        Expr::Call { name, args } => ExprView::Call { name: name@, args: exprs_view(args@) },
        Expr::Literal(lit) => ExprView::Literal(literal_view(lit)),
        Expr::Str(items) => ExprView::Str(exprs_view(items@)),
        Expr::List(items) => ExprView::List(exprs_view(items@)),
        Expr::Record(pairs) => ExprView::Record(pairs_view(pairs@)),
        Expr::Binop { lhs, op, rhs } => ExprView::Binop {
            lhs: Box::new(expr_view(*lhs)),
            op,
            rhs: Box::new(expr_view(*rhs)),
        },
        Expr::And { lhs, rhs } => ExprView::And {
            lhs: Box::new(expr_view(*lhs)),
            rhs: Box::new(expr_view(*rhs)),
        },
        Expr::Or { lhs, rhs } => ExprView::Or {
            lhs: Box::new(expr_view(*lhs)),
            rhs: Box::new(expr_view(*rhs)),
        },
        Expr::Not(inner) => ExprView::Not(Box::new(expr_view(*inner))),
    }
}

/// The values of expressions.
pub open spec fn exprs_view(es: Seq<Expr>) -> Seq<ExprView>
    decreases es, es.len(),
{
    if es.len() == 0 {
        Seq::empty()
    } else {
        exprs_view(es.drop_last()).push(expr_view(es.last()))
    }
}

/// The values of the entries of a record constructor.
pub open spec fn pairs_view(pairs: Seq<(Ident, Expr)>) -> Seq<(Seq<char>, ExprView)>
    decreases pairs, pairs.len(),
{
    if pairs.len() == 0 {
        Seq::empty()
    } else {
        pairs_view(pairs.drop_last()).push((pairs.last().0@, expr_view(pairs.last().1)))
    }
}

/// The value of a statement.
pub open spec fn stmt_view(s: Stmt) -> StmtView
    decreases s,
{
    match s {
        Stmt::My { lhs, rhs } => StmtView::My {
            lhs: lhs@,
            rhs: match rhs {
                Some(e) => Some(expr_view(e)),
                None => None,
            },
        },
        Stmt::Assign { lhs, rhs } => StmtView::Assign { lhs: expr_view(lhs), rhs: expr_view(rhs) },
        Stmt::Return { rhs } => StmtView::Return {
            rhs: match rhs {
                Some(e) => Some(expr_view(e)),
                None => None,
            },
        },
        Stmt::Assert { rhs } => StmtView::Assert { rhs: expr_view(rhs) },
        Stmt::If { clauses, last } => StmtView::If {
            clauses: clauses_view(clauses@),
            last: stmts_view(last@),
        },
        Stmt::While { test, body } => StmtView::While {
            test: expr_view(test),
            body: stmts_view(body@),
        },
        Stmt::Bare { rhs } => StmtView::Bare { rhs: expr_view(rhs) },
        Stmt::Nop => StmtView::Nop,
    }
}

/// The values of statements.
pub open spec fn stmts_view(ss: Seq<Stmt>) -> Seq<StmtView>
    decreases ss, ss.len(),
{
    if ss.len() == 0 {
        Seq::empty()
    } else {
        stmts_view(ss.drop_last()).push(stmt_view(ss.last()))
    }
}

/// The values of the clauses of an `if`.
pub open spec fn clauses_view(cs: Seq<(Expr, Vec<Stmt>)>) -> Seq<(ExprView, Seq<StmtView>)>
    decreases cs, cs.len(),
{
    if cs.len() == 0 {
        Seq::empty()
    } else {
        clauses_view(cs.drop_last()).push((expr_view(cs.last().0), stmts_view(cs.last().1@)))
    }
}

/// The value of a function definition.
pub open spec fn def_view(d: Def) -> DefView {
    DefView {
        name: d.name@,
        args: Seq::new(d.args.0@.len(), |i: int| d.args.0@[i]@),
        body: stmts_view(d.body@),
    }
}

/// The value of a source file.
pub open spec fn source_view(m: Module) -> SourceView {
    SourceView {
        begin: stmts_view(m.begin@),
        defs: Seq::new(m.defs@.len(), |i: int| def_view(m.defs@[i])),
    }
}

/// The values of the expressions after one more expression.
pub proof fn exprs_view_push(es: Seq<Expr>, e: Expr)
    ensures
        exprs_view(es.push(e)) == exprs_view(es).push(expr_view(e)),
{
    assert(es.push(e).drop_last() =~= es);
}

/// The values of the entries after one more entry.
pub proof fn pairs_view_push(pairs: Seq<(Ident, Expr)>, key: Ident, e: Expr)
    ensures
        pairs_view(pairs.push((key, e))) == pairs_view(pairs).push((key@, expr_view(e))),
{
    assert(pairs.push((key, e)).drop_last() =~= pairs);
}

/// The values of the statements after one more statement.
pub proof fn stmts_view_push(ss: Seq<Stmt>, s: Stmt)
    ensures
        stmts_view(ss.push(s)) == stmts_view(ss).push(stmt_view(s)),
{
    assert(ss.push(s).drop_last() =~= ss);
}

/// The values of the clauses after one more clause.
pub proof fn clauses_view_push(cs: Seq<(Expr, Vec<Stmt>)>, test: Expr, body: Vec<Stmt>)
    ensures
        clauses_view(cs.push((test, body))) == clauses_view(cs).push(
            (expr_view(test), stmts_view(body@)),
        ),
{
    assert(cs.push((test, body)).drop_last() =~= cs);
}

} // verus!

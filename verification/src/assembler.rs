//! The assembler: from syntax trees to sealed function bodies.

use vstd::prelude::*;
use crate::ast;
use crate::error::Error;
use crate::ident::{pool_with, valid_ident, Ident, Interned, Str, Strings};
use crate::opcode::{function_at, Argc, Binop, Func, InterpretedFn, Module, NativeFn, Op};
use crate::pattern::compile::{
    ast_maps, group_holds, group_maps_payloads, group_maps_view, group_refused, made_by, refused_by,
};
use crate::pattern::parse::{ast_view, AstView};
use crate::pattern::Var;
use crate::text::push_str;
use crate::value::Int;

verus! {

/// A label of the assembler: a symbol that stands for an index into the body.
#[derive(Copy, Clone, Debug, PartialEq, Eq, Structural)]
pub struct Sym(pub usize);

/// A variable of a pattern once the assembler has resolved it: a local by
/// its slot, a global by its name.
pub enum Slot {
    Local(usize),
    Global(Seq<char>),
}

/// The value of a resolved variable.
pub open spec fn slot_of(v: Var<usize>) -> Slot {
    match v {
        Var::Local { name } => Slot::Local(name),
        Var::Global { name } => Slot::Global(name@),
    }
}

/// The function that gives a resolved variable its value.
pub open spec fn slots() -> spec_fn(Var<usize>) -> Slot {
    |v: Var<usize>| slot_of(v)
}

/// The mathematical value of an instruction: names and strings are
/// sequences of code points, and a pattern is its value.
#[allow(inconsistent_fields)]
pub enum OpView<Label> {
    RET,
    DUP,
    DROP,
    NOT,
    NIL,
    CALL { name: Seq<char>, argc: usize },
    BINOP { op: Binop },
    LOAD { src: usize },
    STORE { dst: usize },
    GROUP { num: u8 },
    GLOBALS,
    INS,
    PUSHI { value: Int },
    PUSHS { string: Seq<char> },
    PUSHN { name: Seq<char> },
    PAT { pat: AstView<Slot> },
    LIST { len: usize },
    STR { len: usize },
    REC,
    JUMP { dst: Label },
    JNZ { dst: Label },
    MARK { len: usize },
    ASSERT { expr: Seq<char> },
}

/// The value of an instruction.
pub open spec fn op_view<Label>(op: Op<Label>) -> OpView<Label> {
    match op {
        Op::RET => OpView::RET,
        Op::DUP => OpView::DUP,
        Op::DROP => OpView::DROP,
        Op::NOT => OpView::NOT,
        Op::NIL => OpView::NIL,
        Op::CALL { name, argc } => OpView::CALL { name: name@, argc },
        Op::BINOP { op } => OpView::BINOP { op },
        Op::LOAD { src } => OpView::LOAD { src },
        Op::STORE { dst } => OpView::STORE { dst },
        Op::GROUP { num } => OpView::GROUP { num },
        Op::GLOBALS => OpView::GLOBALS,
        Op::INS => OpView::INS,
        Op::PUSHI { value } => OpView::PUSHI { value },
        Op::PUSHS { string } => OpView::PUSHS { string: string@ },
        Op::PUSHN { name } => OpView::PUSHN { name: name@ },
        Op::PAT { pat } => OpView::PAT { pat: ast_view(slots(), pat) },
        Op::LIST { len } => OpView::LIST { len },
        Op::STR { len } => OpView::STR { len },
        Op::REC => OpView::REC,
        Op::JUMP { dst } => OpView::JUMP { dst },
        Op::JNZ { dst } => OpView::JNZ { dst },
        Op::MARK { len } => OpView::MARK { len },
        Op::ASSERT { expr } => OpView::ASSERT { expr: expr@ },
    }
}

/// The values of a sequence of instructions.
pub open spec fn ops_view<Label>(ops: Seq<Op<Label>>) -> Seq<OpView<Label>> {
    Seq::new(ops.len(), |i: int| op_view(ops[i]))
}

/// The names of a scope with their slots.
pub type ScopeView = Seq<(Seq<char>, usize)>;

/// What the assembler has made so far: the instructions with symbolic
/// labels, the index that each symbol stands for once it is placed, the
/// scopes from the outermost to the innermost, and the string pool.
#[verifier::ext_equal]
pub struct Asm {
    pub code: Seq<OpView<Sym>>,
    pub labels: Seq<Option<usize>>,
    pub scopes: Seq<ScopeView>,
    pub strings: Seq<Seq<char>>,
}

/// The index of the first entry of a scope with the name `name`.
pub open spec fn scope_find(scope: ScopeView, name: Seq<char>) -> Option<int>
    decreases scope.len(),
{
    if scope.len() == 0 {
        None
    } else {
        match scope_find(scope.drop_last(), name) {
            Some(i) => Some(i),
            None => if scope.last().0 == name {
                Some(scope.len() - 1)
            } else {
                None
            },
        }
    }
}

/// The scope after `name` has got the slot `slot`: the entry of that name
/// gets the slot, or the scope gets a new entry.
pub open spec fn scope_with(scope: ScopeView, name: Seq<char>, slot: usize) -> ScopeView {
    match scope_find(scope, name) {
        Some(i) => scope.update(i, (name, slot)),
        None => scope.push((name, slot)),
    }
}

/// The number of names in all scopes: the slot that the next local gets.
pub open spec fn depth(scopes: Seq<ScopeView>) -> nat
    decreases scopes.len(),
{
    if scopes.len() == 0 {
        0
    } else {
        depth(scopes.drop_last()) + scopes.last().len()
    }
}

/// The slot of `name`: that of the innermost scope that has the name.
pub open spec fn lookup(scopes: Seq<ScopeView>, name: Seq<char>) -> Option<usize>
    decreases scopes.len(),
{
    if scopes.len() == 0 {
        None
    } else {
        match scope_find(scopes.last(), name) {
            Some(i) => Some(scopes.last()[i].1),
            None => lookup(scopes.drop_last(), name),
        }
    }
}

impl Asm {
    /// The assembler after one more instruction.
    pub open spec fn emit(self, op: OpView<Sym>) -> Asm {
        Asm { code: self.code.push(op), ..self }
    }

    /// The assembler after a new symbol has been made: the symbol is the
    /// number of the symbols made before, and has no place yet.
    pub open spec fn gensym(self) -> Result<(Asm, Sym), Error> {
        if self.labels.len() < usize::MAX {
            Ok((Asm { labels: self.labels.push(None), ..self }, Sym(self.labels.len() as usize)))
        } else {
            Err(Error::InternalCompilerErr)
        }
    }

    /// The assembler after a symbol has been placed where the code ends.
    pub open spec fn label(self, sym: Sym) -> Result<Asm, Error> {
        if sym.0 < self.labels.len() && self.labels[sym.0 as int] is None && self.code.len()
            <= usize::MAX {
            Ok(Asm { labels: self.labels.update(sym.0 as int, Some(self.code.len() as usize)), ..self })
        } else {
            Err(Error::LabelRedefined)
        }
    }

    /// The assembler after a local has been declared: the name gets the next
    /// slot in the innermost scope, which must not have the name yet, and the
    /// slot is reserved.
    pub open spec fn local(self, name: Seq<char>) -> Result<Asm, Error> {
        if self.scopes.len() == 0 || depth(self.scopes) >= usize::MAX {
            Err(Error::InternalCompilerErr)
        } else if scope_find(self.scopes.last(), name) is Some {
            Err(Error::VariableRenamed)
        } else {
            let index = depth(self.scopes) as usize;
            Ok(
                Asm {
                    scopes: self.scopes.update(
                        self.scopes.len() - 1,
                        self.scopes.last().push((name, index)),
                    ),
                    ..self
                }.emit(OpView::MARK { len: (index + 1) as usize }),
            )
        }
    }

    /// The assembler after a string has been interned.
    pub open spec fn intern(self, text: Seq<char>) -> Asm {
        Asm { strings: pool_with(self.strings, text), ..self }
    }
}

/// Whether a variable of a pattern can be resolved: a local must have a slot.
pub open spec fn resolvable(scopes: Seq<ScopeView>) -> spec_fn(Var<Ident>) -> bool {
    |v: Var<Ident>|
        match v {
            Var::Local { name } => lookup(scopes, name@) is Some,
            Var::Global { name } => true,
        }
}

/// The value of a variable of a pattern once it is resolved.
pub open spec fn resolved(scopes: Seq<ScopeView>) -> spec_fn(Var<Ident>) -> Slot {
    |v: Var<Ident>|
        match v {
            Var::Local { name } => Slot::Local(lookup(scopes, name@)->0),
            Var::Global { name } => Slot::Global(name@),
        }
}

/// The operator of the machine that stands for one of the language.
pub open spec fn lowered(op: ast::Binop) -> Binop {
    match op {
        ast::Binop::Add => Binop::ADD,
        ast::Binop::Sub => Binop::SUB,
        ast::Binop::Div => Binop::DIV,
        ast::Binop::Mul => Binop::MUL,
        ast::Binop::Idx => Binop::IDX,
        ast::Binop::Match => Binop::MATCH,
        ast::Binop::Equal => Binop::EQ,
        ast::Binop::NotEqual => Binop::NE,
    }
}

/// The code that pushes a literal.
pub open spec fn tr_literal(lit: ast::Literal, a: Asm) -> Result<Asm, Error> {
    match lit {
        ast::Literal::Int(value) => Ok(a.emit(OpView::PUSHI { value })),
        ast::Literal::Str(string) => Ok(a.intern(string@).emit(OpView::PUSHS { string: string@ })),
        ast::Literal::Ident(name) => Ok(a.emit(OpView::PUSHN { name: name@ })),
        ast::Literal::Nil => Ok(a.emit(OpView::NIL)),
        ast::Literal::Pattern(pat) => if forall|v: Var<Ident>| #[trigger]
            group_holds(pat.root, v) ==> resolvable(a.scopes)(v) {
            Ok(a.emit(OpView::PAT { pat: ast_view(resolved(a.scopes), pat) }))
        } else {
            Err(Error::VariableUndefined)
        },
    }
}

/// The code that leaves the value of an expression on the operand stack.
pub open spec fn tr_expr(e: ast::Expr, a: Asm) -> Result<Asm, Error>
    decreases e,
{
    match e {
        ast::Expr::Parens(inner) => tr_expr(*inner, a),
        ast::Expr::Local(id) => match lookup(a.scopes, id@) {
            Some(src) => Ok(a.emit(OpView::LOAD { src })),
            None => Err(Error::VariableUndefined),
        },
        ast::Expr::Global(id) => Ok(
            a.emit(OpView::GLOBALS).emit(OpView::PUSHN { name: id@ }).emit(
                OpView::BINOP { op: Binop::IDX },
            ),
        ),
        ast::Expr::Group(num) => Ok(a.emit(OpView::GROUP { num })),
        ast::Expr::Literal(lit) => tr_literal(lit, a),
        ast::Expr::List(items) => match tr_exprs(items@, 0, a) {
            Ok(b) => Ok(b.emit(OpView::LIST { len: items@.len() as usize })),
            Err(e) => Err(e),
        },
        ast::Expr::Str(items) => match tr_exprs(items@, 0, a) {
            Ok(b) => Ok(b.emit(OpView::STR { len: items@.len() as usize })),
            Err(e) => Err(e),
        },
        ast::Expr::Record(pairs) => tr_pairs(pairs@, 0, a.emit(OpView::REC)),
        ast::Expr::Binop { lhs, op, rhs } => match tr_expr(*lhs, a) {
            Ok(b) => match tr_expr(*rhs, b) {
                Ok(c) => Ok(c.emit(OpView::BINOP { op: lowered(op) })),
                Err(e) => Err(e),
            },
            Err(e) => Err(e),
        },
        ast::Expr::And { lhs, rhs } => match a.gensym() {
            Ok((b, after)) => match tr_expr(*lhs, b) {
                Ok(c) => match tr_expr(
                    *rhs,
                    c.emit(OpView::DUP).emit(OpView::NOT).emit(OpView::JNZ { dst: after }).emit(
                        OpView::DROP,
                    ),
                ) {
                    Ok(d) => d.label(after),
                    Err(e) => Err(e),
                },
                Err(e) => Err(e),
            },
            Err(e) => Err(e),
        },
        ast::Expr::Or { lhs, rhs } => match a.gensym() {
            Ok((b, after)) => match tr_expr(*lhs, b) {
                Ok(c) => match tr_expr(
                    *rhs,
                    c.emit(OpView::DUP).emit(OpView::JNZ { dst: after }).emit(OpView::DROP),
                ) {
                    Ok(d) => d.label(after),
                    Err(e) => Err(e),
                },
                Err(e) => Err(e),
            },
            Err(e) => Err(e),
        },
        ast::Expr::Not(inner) => match tr_expr(*inner, a) {
            Ok(b) => Ok(b.emit(OpView::NOT)),
            Err(e) => Err(e),
        },
        ast::Expr::Call { name, args } => match tr_exprs(args@, 0, a) {
            Ok(b) => Ok(
                b.intern(name@).emit(OpView::CALL { name: name@, argc: args@.len() as usize }),
            ),
            Err(e) => Err(e),
        },
    }
}

/// The code that pushes the values of the expressions `es[i..]`, in order.
pub open spec fn tr_exprs(es: Seq<ast::Expr>, i: int, a: Asm) -> Result<Asm, Error>
    decreases es, es.len() - i,
{
    if 0 <= i < es.len() {
        match tr_expr(es[i], a) {
            Ok(b) => tr_exprs(es, i + 1, b),
            Err(e) => Err(e),
        }
    } else {
        Ok(a)
    }
}

/// The code for the entries `pairs[i..]` of a record constructor: for each
/// entry the key, the value and an `INS`.
pub open spec fn tr_pairs(pairs: Seq<(Ident, ast::Expr)>, i: int, a: Asm) -> Result<Asm, Error>
    decreases pairs, pairs.len() - i,
{
    if 0 <= i < pairs.len() {
        match tr_expr(pairs[i].1, a.emit(OpView::PUSHN { name: pairs[i].0@ })) {
            Ok(b) => tr_pairs(pairs, i + 1, b.emit(OpView::INS)),
            Err(e) => Err(e),
        }
    } else {
        Ok(a)
    }
}

/// The code that evaluates an optional expression, where none stands for nil.
pub open spec fn tr_or_nil(e: Option<ast::Expr>, a: Asm) -> Result<Asm, Error> {
    match e {
        Some(e) => tr_expr(e, a),
        None => Ok(a.emit(OpView::NIL)),
    }
}

/// The code of a statement.
pub open spec fn tr_stmt(s: ast::Stmt, a: Asm) -> Result<Asm, Error>
    decreases s,
{
    match s {
        ast::Stmt::My { lhs, rhs } => match tr_or_nil(rhs, a) {
            Ok(b) => b.local(lhs@),
            Err(e) => Err(e),
        },
        ast::Stmt::Assign { lhs, rhs } => match lhs {
            ast::Expr::Local(id) => match tr_expr(rhs, a) {
                Ok(b) => match lookup(b.scopes, id@) {
                    Some(dst) => Ok(b.emit(OpView::STORE { dst })),
                    None => Err(Error::VariableUndefined),
                },
                Err(e) => Err(e),
            },
            ast::Expr::Global(name) => match tr_expr(rhs, a) {
                Ok(b) => Ok(
                    b.emit(OpView::PUSHN { name: name@ }).emit(OpView::GLOBALS).emit(OpView::INS),
                ),
                Err(e) => Err(e),
            },
            ast::Expr::Binop { lhs: target, op, rhs: idx } => if op == ast::Binop::Idx {
                match tr_expr(rhs, a) {
                    Ok(b) => match tr_expr(*idx, b) {
                        Ok(c) => match tr_expr(*target, c) {
                            Ok(d) => Ok(d.emit(OpView::INS)),
                            Err(e) => Err(e),
                        },
                        Err(e) => Err(e),
                    },
                    Err(e) => Err(e),
                }
            } else {
                Err(Error::IllegalLvalue)
            },
            _ => Err(Error::IllegalLvalue),
        },
        ast::Stmt::Return { rhs } => match tr_or_nil(rhs, a) {
            Ok(b) => Ok(b.emit(OpView::RET)),
            Err(e) => Err(e),
        },
        ast::Stmt::Assert { rhs } => match tr_expr(rhs, a) {
            Ok(b) => Ok(b.emit(OpView::ASSERT { expr: ast::expr_text(rhs) })),
            Err(e) => Err(e),
        },
        ast::Stmt::If { clauses, last } => match a.gensym() {
            Ok((b, after)) => match tr_tests(clauses@, 0, Seq::empty(), b) {
                Ok((c, labels)) => match tr_block(last@, c) {
                    Ok(d) => match tr_bodies(
                        clauses@,
                        labels,
                        0,
                        after,
                        d.emit(OpView::JUMP { dst: after }),
                    ) {
                        Ok(f) => f.label(after),
                        Err(e) => Err(e),
                    },
                    Err(e) => Err(e),
                },
                Err(e) => Err(e),
            },
            Err(e) => Err(e),
        },
        ast::Stmt::While { test, body } => match a.gensym() {
            Ok((b, before)) => match b.gensym() {
                Ok((c, after)) => match tr_expr(test, c) {
                    Ok(d) => match d.emit(OpView::NOT).emit(OpView::JNZ { dst: after }).label(
                        before,
                    ) {
                        Ok(f) => match tr_block(body@, f) {
                            Ok(g) => match tr_expr(test, g) {
                                Ok(h) => h.emit(OpView::JNZ { dst: before }).label(after),
                                Err(e) => Err(e),
                            },
                            Err(e) => Err(e),
                        },
                        Err(e) => Err(e),
                    },
                    Err(e) => Err(e),
                },
                Err(e) => Err(e),
            },
            Err(e) => Err(e),
        },
        ast::Stmt::Bare { rhs } => match tr_expr(rhs, a) {
            Ok(b) => Ok(b.emit(OpView::DROP)),
            Err(e) => Err(e),
        },
        ast::Stmt::Nop => Ok(a),
    }
}

/// The code of the statements `ss[i..]`, in order.
pub open spec fn tr_stmts(ss: Seq<ast::Stmt>, i: int, a: Asm) -> Result<Asm, Error>
    decreases ss, ss.len() - i, 0int,
{
    if 0 <= i < ss.len() {
        match tr_stmt(ss[i], a) {
            Ok(b) => tr_stmts(ss, i + 1, b),
            Err(e) => Err(e),
        }
    } else {
        Ok(a)
    }
}

/// The code of a block: its statements in a scope of their own, then a
/// `MARK` that releases the locals of that scope.
pub open spec fn tr_block(ss: Seq<ast::Stmt>, a: Asm) -> Result<Asm, Error>
    decreases ss, ss.len() + 1, 1int,
{
    if depth(a.scopes) > usize::MAX {
        Err(Error::InternalCompilerErr)
    } else {
        match tr_stmts(ss, 0, Asm { scopes: a.scopes.push(Seq::empty()), ..a }) {
            Ok(b) => if b.scopes.len() == 0 {
                Err(Error::InternalCompilerErr)
            } else {
                Ok(
                    Asm { scopes: b.scopes.drop_last(), ..b }.emit(
                        OpView::MARK { len: depth(a.scopes) as usize },
                    ),
                )
            },
            Err(e) => Err(e),
        }
    }
}

/// The dispatch of an `if`: for each of the clauses `clauses[i..]` a new
/// symbol, the test, and a jump to the symbol if the test holds. The
/// result carries the symbols, one for each clause.
pub open spec fn tr_tests(
    clauses: Seq<(ast::Expr, Vec<ast::Stmt>)>,
    i: int,
    labels: Seq<Sym>,
    a: Asm,
) -> Result<(Asm, Seq<Sym>), Error>
    decreases clauses, clauses.len() - i,
{
    if 0 <= i < clauses.len() {
        match a.gensym() {
            Ok((b, label)) => match tr_expr(clauses[i].0, b) {
                Ok(c) => tr_tests(clauses, i + 1, labels.push(label), c.emit(OpView::JNZ { dst: label })),
                Err(e) => Err(e),
            },
            Err(e) => Err(e),
        }
    } else {
        Ok((a, labels))
    }
}

/// The bodies of an `if`: for each of the clauses `clauses[i..]` its
/// symbol, placed, then its block, then a jump past the `if`.
pub open spec fn tr_bodies(
    clauses: Seq<(ast::Expr, Vec<ast::Stmt>)>,
    labels: Seq<Sym>,
    i: int,
    after: Sym,
    a: Asm,
) -> Result<Asm, Error>
    decreases clauses, clauses.len() - i,
{
    if 0 <= i < clauses.len() && i < labels.len() {
        match a.label(labels[i]) {
            Ok(b) => match tr_block(clauses[i].1@, b) {
                Ok(c) => tr_bodies(clauses, labels, i + 1, after, c.emit(OpView::JUMP { dst: after })),
                Err(e) => Err(e),
            },
            Err(e) => Err(e),
        }
    } else {
        Ok(a)
    }
}

/// The instruction with its label replaced by the index that it stands for.
pub open spec fn resolve_op(op: OpView<Sym>, labels: Seq<Option<usize>>) -> Option<OpView<usize>> {
    match op {
        OpView::JUMP { dst } => if dst.0 < labels.len() && labels[dst.0 as int] is Some {
            Some(OpView::JUMP { dst: labels[dst.0 as int]->0 })
        } else {
            None
        },
        OpView::JNZ { dst } => if dst.0 < labels.len() && labels[dst.0 as int] is Some {
            Some(OpView::JNZ { dst: labels[dst.0 as int]->0 })
        } else {
            None
        },
        OpView::RET => Some(OpView::RET),
        OpView::DUP => Some(OpView::DUP),
        OpView::DROP => Some(OpView::DROP),
        OpView::NOT => Some(OpView::NOT),
        OpView::NIL => Some(OpView::NIL),
        OpView::CALL { name, argc } => Some(OpView::CALL { name, argc }),
        OpView::BINOP { op } => Some(OpView::BINOP { op }),
        OpView::LOAD { src } => Some(OpView::LOAD { src }),
        OpView::STORE { dst } => Some(OpView::STORE { dst }),
        OpView::GROUP { num } => Some(OpView::GROUP { num }),
        OpView::GLOBALS => Some(OpView::GLOBALS),
        OpView::INS => Some(OpView::INS),
        OpView::PUSHI { value } => Some(OpView::PUSHI { value }),
        OpView::PUSHS { string } => Some(OpView::PUSHS { string }),
        OpView::PUSHN { name } => Some(OpView::PUSHN { name }),
        OpView::PAT { pat } => Some(OpView::PAT { pat }),
        OpView::LIST { len } => Some(OpView::LIST { len }),
        OpView::STR { len } => Some(OpView::STR { len }),
        OpView::REC => Some(OpView::REC),
        OpView::MARK { len } => Some(OpView::MARK { len }),
        OpView::ASSERT { expr } => Some(OpView::ASSERT { expr }),
    }
}

/// The sealed body: every instruction with its label resolved, or
/// `NoSuchLabel` where a jump names a symbol that has no place.
pub open spec fn sealed(a: Asm) -> Result<Seq<OpView<usize>>, Error> {
    if forall|i: int| 0 <= i < a.code.len() ==> resolve_op(#[trigger] a.code[i], a.labels) is Some {
        Ok(Seq::new(a.code.len(), |i: int| resolve_op(a.code[i], a.labels)->0))
    } else {
        Err(Error::NoSuchLabel)
    }
}

/// The assembler at the start of a body with the parameters `args`: one
/// scope, in which each parameter has its position as its slot.
pub open spec fn fresh(args: Seq<Ident>, strings: Seq<Seq<char>>) -> Asm {
    Asm {
        code: Seq::empty(),
        labels: Seq::empty(),
        scopes: seq![params(args, args.len() as int)],
        strings,
    }
}

/// The scope of the first `n` parameters.
pub open spec fn params(args: Seq<Ident>, n: int) -> ScopeView
    decreases n,
{
    if n <= 0 || n > args.len() {
        Seq::empty()
    } else {
        scope_with(params(args, n - 1), args[n - 1]@, (n - 1) as usize)
    }
}

/// Whether a step of the assembler did what it should: it succeeded and
/// left the assembler as `want` says, or failed with the error of `want`.
pub open spec fn done(r: Result<(), Error>, post: Asm, want: Result<Asm, Error>) -> bool {
    match want {
        Ok(b) => r is Ok && post =~~= b,
        Err(e) => r == Err::<(), Error>(e),
    }
}

/// The names of a scope with their slots.
pub open spec fn scope_view(scope: Seq<(Ident, usize)>) -> ScopeView {
    Seq::new(scope.len(), |j: int| (scope[j].0@, scope[j].1))
}

/// The scopes of the assembler.
pub open spec fn scopes_view(scopes: Seq<Vec<(Ident, usize)>>) -> Seq<ScopeView> {
    Seq::new(scopes.len(), |i: int| scope_view(scopes[i]@))
}

/// The assembler of one body.
pub struct Assembler {
    code: Vec<Op<Sym>>,
    strings: Strings,
    labels: Vec<Option<usize>>,
    scopes: Vec<Vec<(Ident, usize)>>,
}

proof fn scope_find_extends(scope: ScopeView, name: Seq<char>, n: int)
    requires
        0 <= n <= scope.len(),
        scope_find(scope.take(n), name) is Some,
    ensures
        scope_find(scope, name) == scope_find(scope.take(n), name),
        scope_find(scope, name)->0 < n,
    decreases scope.len() - n,
{
    scope_find_bound(scope.take(n), name);
    if n < scope.len() {
        assert(scope.take(n + 1).drop_last() =~~= scope.take(n));
        scope_find_extends(scope, name, n + 1);
    } else {
        assert(scope.take(n) =~~= scope);
    }
}

proof fn scope_find_bound(scope: ScopeView, name: Seq<char>)
    ensures
        scope_find(scope, name) matches Some(i) ==> 0 <= i < scope.len() && scope[i].0 == name,
    decreases scope.len(),
{
    if scope.len() > 0 {
        scope_find_bound(scope.drop_last(), name);
    }
}

proof fn depth_take(scopes: Seq<ScopeView>, n: int)
    requires
        0 <= n < scopes.len(),
    ensures
        depth(scopes.take(n + 1)) == depth(scopes.take(n)) + scopes[n].len(),
{
    assert(scopes.take(n + 1).drop_last() =~~= scopes.take(n));
}

/// The index of the first entry of a scope with the name `name`.
fn find_in(scope: &Vec<(Ident, usize)>, name: &Ident) -> (r: Option<usize>)
    ensures
        r matches Some(i) ==> i < scope@.len() && scope_find(scope_view(scope@), name@) == Some(
            i as int,
        ),
        r is None ==> scope_find(scope_view(scope@), name@) is None,
{
    let ghost view = scope_view(scope@);
    let mut i: usize = 0;
    while i < scope.len()
        invariant
            i <= scope.len(),
            view == scope_view(scope@),
            scope_find(view.take(i as int), name@) is None,
        decreases scope.len() - i,
    {
        proof {
            assert(view.take(i + 1).drop_last() =~~= view.take(i as int));
        }
        if scope[i].0.same_as(name) {
            proof {
                assert(view.take(i + 1).last() == view[i as int]);
                scope_find_extends(view, name@, i + 1);
            }
            return Some(i);
        }
        i = i + 1;
    }
    assert(view.take(scope.len() as int) =~~= view);
    None
}

impl Assembler {
    /// What the assembler has made so far.
    pub closed spec fn view(&self) -> Asm {
        Asm {
            code: ops_view(self.code@),
            labels: self.labels@,
            scopes: scopes_view(self.scopes@),
            strings: self.strings@,
        }
    }

    /// An assembler at the start of a body with the parameters `args`.
    fn new(strings: Strings, args: &Vec<Ident>) -> (it: Assembler)
        ensures
            it.view() =~~= fresh(args@, strings@),
    {
        let mut scope: Vec<(Ident, usize)> = Vec::new();
        let mut i: usize = 0;
        while i < args.len()
            invariant
                i <= args.len(),
                scope_view(scope@) =~~= params(args@, i as int),
            decreases args.len() - i,
        {
            match find_in(&scope, &args[i]) {
                Some(at) => {
                    scope[at] = (args[i].clone(), i);
                },
                None => {
                    scope.push((args[i].clone(), i));
                },
            }
            i = i + 1;
        }
        let mut scopes: Vec<Vec<(Ident, usize)>> = Vec::new();
        scopes.push(scope);
        let it = Assembler { code: Vec::new(), strings, labels: Vec::new(), scopes };
        assert(it.view().scopes =~~= seq![params(args@, args@.len() as int)]);
        it
    }

    /// Appends an instruction to the code.
    fn emit(&mut self, op: Op<Sym>)
        ensures
            final(self).view() =~~= old(self).view().emit(op_view(op)),
    {
        self.code.push(op);
    }

    /// Makes a fresh label that no instruction is bound to yet.
    fn gensym(&mut self) -> (r: Result<Sym, Error>)
        ensures
            match old(self).view().gensym() {
                Ok((b, sym)) => r == Ok::<Sym, Error>(sym) && final(self).view() =~~= b,
                Err(e) => r == Err::<Sym, Error>(e),
            },
    {
        let n = self.labels.len();
        if n == usize::MAX {
            return Err(Error::InternalCompilerErr);
        }
        self.labels.push(None);
        Ok(Sym(n))
    }

    /// Binds a label to the place of the next instruction; a label is bound once.
    fn label(&mut self, sym: Sym) -> (r: Result<(), Error>)
        ensures
            done(r, final(self).view(), old(self).view().label(sym)),
    {
        if sym.0 < self.labels.len() && self.labels[sym.0].is_none() {
            let at = self.code.len();
            self.labels[sym.0] = Some(at);
            Ok(())
        } else {
            Err(Error::LabelRedefined)
        }
    }

    /// The number of names in all scopes, if it fits.
    fn depth(&self) -> (r: Option<usize>)
        ensures
            match r {
                Some(d) => d == depth(self.view().scopes),
                None => depth(self.view().scopes) > usize::MAX,
            },
    {
        let ghost scopes = self.view().scopes;
        let mut total: usize = 0;
        let mut i: usize = 0;
        while i < self.scopes.len()
            invariant
                i <= self.scopes.len(),
                scopes == scopes_view(self.scopes@),
                total == depth(scopes.take(i as int)),
            decreases self.scopes.len() - i,
        {
            proof {
                depth_take(scopes, i as int);
            }
            total = match total.checked_add(self.scopes[i].len()) {
                Some(total) => total,
                None => {
                    proof {
                        depth_grows(scopes, i + 1);
                    }
                    return None;
                },
            };
            i = i + 1;
        }
        assert(scopes.take(self.scopes.len() as int) =~~= scopes);
        Some(total)
    }

    /// The slot of a variable: innermost scope first.
    fn lookup(&self, id: &Ident) -> (r: Option<usize>)
        ensures
            r == lookup(self.view().scopes, id@),
    {
        let ghost scopes = self.view().scopes;
        let mut i: usize = self.scopes.len();
        assert(scopes.take(i as int) =~= scopes);
        while i > 0
            invariant
                i <= self.scopes.len(),
                scopes == scopes_view(self.scopes@),
                lookup(scopes, id@) == lookup(scopes.take(i as int), id@),
            decreases i,
        {
            i = i - 1;
            proof {
                assert(scopes.take(i + 1).drop_last() =~~= scopes.take(i as int));
                assert(scopes.take(i + 1).last() == scopes[i as int]);
            }
            match find_in(&self.scopes[i], id) {
                Some(at) => {
                    return Some(self.scopes[i][at].1);
                },
                None => {},
            }
        }
        None
    }

    /// Declares a variable in the innermost scope, at the next free slot.
    fn local(&mut self, id: &Ident) -> (r: Result<(), Error>)
        ensures
            done(r, final(self).view(), old(self).view().local(id@)),
    {
        let index = match self.depth() {
            Some(index) => index,
            None => {
                return Err(Error::InternalCompilerErr);
            },
        };
        let n = self.scopes.len();
        if n == 0 || index == usize::MAX {
            return Err(Error::InternalCompilerErr);
        }
        if find_in(&self.scopes[n - 1], id).is_some() {
            return Err(Error::VariableRenamed);
        }
        let top = &mut self.scopes[n - 1];
        top.push((id.clone(), index));
        self.emit(Op::MARK { len: index + 1 });
        assert(self.view().scopes =~~= old(self).view().scopes.update(
            n - 1,
            old(self).view().scopes.last().push((id@, index)),
        ));
        Ok(())
    }

    /// Opens a scope.
    fn enter(&mut self)
        ensures
            final(self).view() =~~= (Asm {
                scopes: old(self).view().scopes.push(Seq::empty()),
                ..old(self).view()
            }),
    {
        self.scopes.push(Vec::new());
    }

    /// Closes the innermost scope.
    fn leave(&mut self) -> (r: Result<(), Error>)
        ensures
            old(self).view().scopes.len() == 0 ==> r == Err::<(), Error>(Error::InternalCompilerErr),
            old(self).view().scopes.len() > 0 ==> r is Ok && final(self).view() =~~= (Asm {
                scopes: old(self).view().scopes.drop_last(),
                ..old(self).view()
            }),
    {
        match self.scopes.pop() {
            Some(_) => Ok(()),
            None => Err(Error::InternalCompilerErr),
        }
    }
}

proof fn depth_grows(scopes: Seq<ScopeView>, n: int)
    requires
        0 <= n <= scopes.len(),
    ensures
        depth(scopes.take(n)) <= depth(scopes),
    decreases scopes.len() - n,
{
    if n < scopes.len() {
        depth_take(scopes, n);
        depth_grows(scopes, n + 1);
    } else {
        assert(scopes.take(n) =~~= scopes);
    }
}

impl Assembler {
    /// Resolves the locals of a pattern to their slots.
    fn resolve(&self, pat: &crate::pattern::Ast) -> (r: Result<crate::pattern::Expr, Error>)
        ensures
            match tr_literal(ast::Literal::Pattern(*pat), self.view()) {
                Ok(b) => r matches Ok(out) && b =~~= self.view().emit(
                    OpView::PAT { pat: ast_view(slots(), out) },
                ),
                Err(e) => r == Err::<crate::pattern::Expr, Error>(e),
            },
    {
        let ghost scopes = self.view().scopes;
        let f = |v: &Var<Ident>| -> (r: Result<Var<usize>, Error>)
            ensures
                match *v {
                    Var::Local { name } => match lookup(self.view().scopes, name@) {
                        Some(slot) => r == Ok::<Var<usize>, Error>(Var::Local { name: slot }),
                        None => r == Err::<Var<usize>, Error>(Error::VariableUndefined),
                    },
                    Var::Global { name } => r matches Ok(Var::Global { name: n }) && n@ == name@,
                },
            {
                match v {
                    Var::Local { name } => match self.lookup(name) {
                        Some(slot) => Ok(Var::Local { name: slot }),
                        None => Err(Error::VariableUndefined),
                    },
                    Var::Global { name } => Ok(Var::Global { name: name.clone() }),
                }
            };
        match pat.map(&f) {
            Ok(out) => {
                proof {
                    group_maps_view(made_by(f), resolved(scopes), slots(), pat.root, out.root);
                    assert forall|v: Var<Ident>| #[trigger] group_holds(pat.root, v) implies resolvable(
                        scopes,
                    )(v) by {
                        group_maps_payloads(made_by(f), resolvable(scopes), pat.root, out.root, v);
                    }
                }
                Ok(out)
            },
            Err(e) => {
                proof {
                    let v = choose|v: Var<Ident>|
                        group_holds(pat.root, v) && #[trigger] refused_by::<
                            Var<Ident>,
                            Var<usize>,
                            Error,
                            _,
                        >(f, v, e);
                    assert(group_holds(pat.root, v));
                    assert(!resolvable(scopes)(v));
                }
                Err(e)
            },
        }
    }

    /// Emits the instructions that push a literal.
    fn push(&mut self, lit: &ast::Literal) -> (r: Result<(), Error>)
        ensures
            done(r, final(self).view(), tr_literal(*lit, old(self).view())),
    {
        match lit {
            ast::Literal::Int(value) => {
                self.emit(Op::PUSHI { value: *value });
            },
            ast::Literal::Str(string) => {
                let string: Str = match self.strings.intern(string.as_str()) {
                    Ok(string) => string,
                    Err(e) => {
                        return Err(e);
                    },
                };
                self.emit(Op::PUSHS { string });
            },
            ast::Literal::Pattern(pat) => {
                let pat = match self.resolve(pat) {
                    Ok(pat) => pat,
                    Err(e) => {
                        return Err(e);
                    },
                };
                self.emit(Op::PAT { pat });
            },
            ast::Literal::Ident(id) => {
                self.emit(Op::PUSHN { name: id.clone() });
            },
            ast::Literal::Nil => {
                self.emit(Op::NIL);
            },
        }
        Ok(())
    }

    /// Emits the instruction of a binary operator.
    fn binop(&mut self, op: ast::Binop)
        ensures
            final(self).view() =~~= old(self).view().emit(OpView::BINOP { op: lowered(op) }),
    {
        let op = match op {
            ast::Binop::Add => Binop::ADD,
            ast::Binop::Sub => Binop::SUB,
            ast::Binop::Div => Binop::DIV,
            ast::Binop::Mul => Binop::MUL,
            ast::Binop::Idx => Binop::IDX,
            ast::Binop::Match => Binop::MATCH,
            ast::Binop::Equal => Binop::EQ,
            ast::Binop::NotEqual => Binop::NE,
        };
        self.emit(Op::BINOP { op });
    }

    /// Emits a call of a named function with `argc` arguments.
    fn call(&mut self, name: &Ident, argc: usize) -> (r: Result<(), Error>)
        ensures
            r is Ok,
            final(self).view() =~~= old(self).view().intern(name@).emit(
                OpView::CALL { name: name@, argc },
            ),
    {
        let name: Ident = match self.strings.intern(name.as_str()) {
            Ok(name) => name,
            Err(e) => {
                return Err(e);
            },
        };
        self.emit(Op::CALL { name, argc });
        Ok(())
    }

    /// Lowers expressions one after the other.
    fn tr_exprs(&mut self, items: &Vec<ast::Expr>) -> (r: Result<(), Error>)
        ensures
            done(r, final(self).view(), tr_exprs(items@, 0, old(self).view())),
        decreases items@,
    {
        let mut i: usize = 0;
        while i < items.len()
            invariant
                i <= items.len(),
                tr_exprs(items@, 0, old(self).view()) == tr_exprs(items@, i as int, self.view()),
            decreases items.len() - i,
        {
            match self.tr_expr(&items[i]) {
                Ok(()) => {},
                Err(e) => {
                    return Err(e);
                },
            }
            i = i + 1;
        }
        Ok(())
    }

    #[verifier::loop_isolation(false)]
    fn tr_expr(&mut self, expr: &ast::Expr) -> (r: Result<(), Error>)
        ensures
            done(r, final(self).view(), tr_expr(*expr, old(self).view())),
        decreases *expr,
    {
        match expr {
            ast::Expr::Parens(inner) => self.tr_expr(inner),
            ast::Expr::Local(id) => {
                match self.lookup(id) {
                    Some(src) => {
                        self.emit(Op::LOAD { src });
                        Ok(())
                    },
                    None => Err(Error::VariableUndefined),
                }
            },
            ast::Expr::Global(id) => {
                self.emit(Op::GLOBALS);
                self.emit(Op::PUSHN { name: id.clone() });
                self.emit(Op::BINOP { op: Binop::IDX });
                Ok(())
            },
            ast::Expr::Group(num) => {
                self.emit(Op::GROUP { num: *num });
                Ok(())
            },
            ast::Expr::Literal(lit) => self.push(lit),
            ast::Expr::List(items) => {
                match self.tr_exprs(items) {
                    Ok(()) => {},
                    Err(e) => {
                        return Err(e);
                    },
                }
                self.emit(Op::LIST { len: items.len() });
                Ok(())
            },
            ast::Expr::Str(items) => {
                match self.tr_exprs(items) {
                    Ok(()) => {},
                    Err(e) => {
                        return Err(e);
                    },
                }
                self.emit(Op::STR { len: items.len() });
                Ok(())
            },
            ast::Expr::Record(pairs) => {
                self.emit(Op::REC);
                let ghost start = self.view();
                let mut i: usize = 0;
                while i < pairs.len()
                    invariant
                        i <= pairs.len(),
                        tr_pairs(pairs@, 0, start) == tr_pairs(pairs@, i as int, self.view()),
                    decreases pairs.len() - i,
                {
                    self.emit(Op::PUSHN { name: pairs[i].0.clone() });
                    match self.tr_expr(&pairs[i].1) {
                        Ok(()) => {},
                        Err(e) => {
                            return Err(e);
                        },
                    }
                    self.emit(Op::INS);
                    i = i + 1;
                }
                Ok(())
            },
            ast::Expr::Binop { lhs, op, rhs } => {
                match self.tr_expr(lhs) {
                    Ok(()) => {},
                    Err(e) => {
                        return Err(e);
                    },
                }
                match self.tr_expr(rhs) {
                    Ok(()) => {},
                    Err(e) => {
                        return Err(e);
                    },
                }
                self.binop(*op);
                Ok(())
            },
            ast::Expr::And { lhs, rhs } => {
                let after = match self.gensym() {
                    Ok(after) => after,
                    Err(e) => {
                        return Err(e);
                    },
                };
                match self.tr_expr(lhs) {
                    Ok(()) => {},
                    Err(e) => {
                        return Err(e);
                    },
                }
                self.emit(Op::DUP);
                self.emit(Op::NOT);
                self.emit(Op::JNZ { dst: after });
                self.emit(Op::DROP);
                match self.tr_expr(rhs) {
                    Ok(()) => {},
                    Err(e) => {
                        return Err(e);
                    },
                }
                self.label(after)
            },
            ast::Expr::Or { lhs, rhs } => {
                let after = match self.gensym() {
                    Ok(after) => after,
                    Err(e) => {
                        return Err(e);
                    },
                };
                match self.tr_expr(lhs) {
                    Ok(()) => {},
                    Err(e) => {
                        return Err(e);
                    },
                }
                self.emit(Op::DUP);
                self.emit(Op::JNZ { dst: after });
                self.emit(Op::DROP);
                match self.tr_expr(rhs) {
                    Ok(()) => {},
                    Err(e) => {
                        return Err(e);
                    },
                }
                self.label(after)
            },
            ast::Expr::Not(inner) => {
                match self.tr_expr(inner) {
                    Ok(()) => {},
                    Err(e) => {
                        return Err(e);
                    },
                }
                self.emit(Op::NOT);
                Ok(())
            },
            ast::Expr::Call { name, args } => {
                match self.tr_exprs(args) {
                    Ok(()) => {},
                    Err(e) => {
                        return Err(e);
                    },
                }
                self.call(name, args.len())
            },
        }
    }

    /// Lowers an optional expression; a missing one pushes nil.
    fn tr_or_nil(&mut self, expr: &Option<ast::Expr>) -> (r: Result<(), Error>)
        ensures
            done(r, final(self).view(), tr_or_nil(*expr, old(self).view())),
        decreases *expr,
    {
        match expr {
            Some(expr) => self.tr_expr(expr),
            None => {
                self.emit(Op::NIL);
                Ok(())
            },
        }
    }

    /// Lowers statements one after the other.
    fn tr_stmts(&mut self, body: &Vec<ast::Stmt>) -> (r: Result<(), Error>)
        ensures
            done(r, final(self).view(), tr_stmts(body@, 0, old(self).view())),
        decreases body@, body@.len(), 0int,
    {
        let mut i: usize = 0;
        while i < body.len()
            invariant
                i <= body.len(),
                tr_stmts(body@, 0, old(self).view()) == tr_stmts(body@, i as int, self.view()),
            decreases body.len() - i,
        {
            match self.tr_stmt(&body[i]) {
                Ok(()) => {},
                Err(e) => {
                    return Err(e);
                },
            }
            i = i + 1;
        }
        Ok(())
    }

    /// Lowers a block: its statements in a scope of their own, whose variables
    /// are released at its end.
    fn tr_block(&mut self, body: &Vec<ast::Stmt>) -> (r: Result<(), Error>)
        ensures
            done(r, final(self).view(), tr_block(body@, old(self).view())),
        decreases body@, body@.len() + 1, 1int,
    {
        let len = match self.depth() {
            Some(len) => len,
            None => {
                return Err(Error::InternalCompilerErr);
            },
        };
        self.enter();
        match self.tr_stmts(body) {
            Ok(()) => {},
            Err(e) => {
                return Err(e);
            },
        }
        match self.leave() {
            Ok(()) => {},
            Err(e) => {
                return Err(e);
            },
        }
        self.emit(Op::MARK { len });
        Ok(())
    }

    #[verifier::loop_isolation(false)]
    fn tr_stmt(&mut self, stmt: &ast::Stmt) -> (r: Result<(), Error>)
        ensures
            done(r, final(self).view(), tr_stmt(*stmt, old(self).view())),
        decreases *stmt,
    {
        match stmt {
            ast::Stmt::My { lhs, rhs } => {
                match self.tr_or_nil(rhs) {
                    Ok(()) => {},
                    Err(e) => {
                        return Err(e);
                    },
                }
                self.local(lhs)
            },
            ast::Stmt::Assign { lhs, rhs } => match lhs {
                ast::Expr::Local(id) => {
                    match self.tr_expr(rhs) {
                        Ok(()) => {},
                        Err(e) => {
                            return Err(e);
                        },
                    }
                    match self.lookup(id) {
                        Some(dst) => {
                            self.emit(Op::STORE { dst });
                            Ok(())
                        },
                        None => Err(Error::VariableUndefined),
                    }
                },
                ast::Expr::Global(name) => {
                    match self.tr_expr(rhs) {
                        Ok(()) => {},
                        Err(e) => {
                            return Err(e);
                        },
                    }
                    self.emit(Op::PUSHN { name: name.clone() });
                    self.emit(Op::GLOBALS);
                    self.emit(Op::INS);
                    Ok(())
                },
                ast::Expr::Binop { lhs: target, op, rhs: idx } => {
                    match op {
                        ast::Binop::Idx => {},
                        _ => {
                            return Err(Error::IllegalLvalue);
                        },
                    }
                    match self.tr_expr(rhs) {
                        Ok(()) => {},
                        Err(e) => {
                            return Err(e);
                        },
                    }
                    match self.tr_expr(idx) {
                        Ok(()) => {},
                        Err(e) => {
                            return Err(e);
                        },
                    }
                    match self.tr_expr(target) {
                        Ok(()) => {},
                        Err(e) => {
                            return Err(e);
                        },
                    }
                    self.emit(Op::INS);
                    Ok(())
                },
                _ => Err(Error::IllegalLvalue),
            },
            ast::Stmt::Return { rhs } => {
                match self.tr_or_nil(rhs) {
                    Ok(()) => {},
                    Err(e) => {
                        return Err(e);
                    },
                }
                self.emit(Op::RET);
                Ok(())
            },
            ast::Stmt::Assert { rhs } => {
                match self.tr_expr(rhs) {
                    Ok(()) => {},
                    Err(e) => {
                        return Err(e);
                    },
                }
                self.emit(Op::ASSERT { expr: rhs.to_string() });
                Ok(())
            },
            ast::Stmt::If { clauses, last } => {
                let after = match self.gensym() {
                    Ok(after) => after,
                    Err(e) => {
                        return Err(e);
                    },
                };
                let ghost start = self.view();
                let mut labels: Vec<Sym> = Vec::new();
                let mut i: usize = 0;
                while i < clauses.len()
                    invariant
                        i <= clauses.len(),
                        labels.len() == i,
                        tr_tests(clauses@, 0, Seq::empty(), start) == tr_tests(
                            clauses@,
                            i as int,
                            labels@,
                            self.view(),
                        ),
                    decreases clauses.len() - i,
                {
                    let label = match self.gensym() {
                        Ok(label) => label,
                        Err(e) => {
                            return Err(e);
                        },
                    };
                    match self.tr_expr(&clauses[i].0) {
                        Ok(()) => {},
                        Err(e) => {
                            return Err(e);
                        },
                    }
                    self.emit(Op::JNZ { dst: label });
                    labels.push(label);
                    i = i + 1;
                }
                match self.tr_block(last) {
                    Ok(()) => {},
                    Err(e) => {
                        return Err(e);
                    },
                }
                self.emit(Op::JUMP { dst: after });
                let ghost middle = self.view();
                let mut j: usize = 0;
                while j < clauses.len()
                    invariant
                        j <= clauses.len(),
                        labels.len() == clauses.len(),
                        tr_bodies(clauses@, labels@, 0, after, middle) == tr_bodies(
                            clauses@,
                            labels@,
                            j as int,
                            after,
                            self.view(),
                        ),
                    decreases clauses.len() - j,
                {
                    match self.label(labels[j]) {
                        Ok(()) => {},
                        Err(e) => {
                            return Err(e);
                        },
                    }
                    match self.tr_block(&clauses[j].1) {
                        Ok(()) => {},
                        Err(e) => {
                            return Err(e);
                        },
                    }
                    self.emit(Op::JUMP { dst: after });
                    j = j + 1;
                }
                self.label(after)
            },
            ast::Stmt::While { test, body } => {
                let before = match self.gensym() {
                    Ok(before) => before,
                    Err(e) => {
                        return Err(e);
                    },
                };
                let after = match self.gensym() {
                    Ok(after) => after,
                    Err(e) => {
                        return Err(e);
                    },
                };
                match self.tr_expr(test) {
                    Ok(()) => {},
                    Err(e) => {
                        return Err(e);
                    },
                }
                self.emit(Op::NOT);
                self.emit(Op::JNZ { dst: after });
                match self.label(before) {
                    Ok(()) => {},
                    Err(e) => {
                        return Err(e);
                    },
                }
                match self.tr_block(body) {
                    Ok(()) => {},
                    Err(e) => {
                        return Err(e);
                    },
                }
                match self.tr_expr(test) {
                    Ok(()) => {},
                    Err(e) => {
                        return Err(e);
                    },
                }
                self.emit(Op::JNZ { dst: before });
                self.label(after)
            },
            ast::Stmt::Bare { rhs } => {
                match self.tr_expr(rhs) {
                    Ok(()) => {},
                    Err(e) => {
                        return Err(e);
                    },
                }
                self.emit(Op::DROP);
                Ok(())
            },
            ast::Stmt::Nop => Ok(()),
        }
    }
}

/// The index that a symbol stands for.
fn place(labels: &Vec<Option<usize>>, sym: Sym) -> (r: Option<usize>)
    ensures
        r == (if sym.0 < labels@.len() {
            labels@[sym.0 as int]
        } else {
            None
        }),
{
    if sym.0 < labels.len() {
        labels[sym.0]
    } else {
        None
    }
}

/// The instruction with its label replaced by the index that it stands for.
fn seal(op: Op<Sym>, labels: &Vec<Option<usize>>) -> (r: Option<Op>)
    ensures
        match resolve_op(op_view(op), labels@) {
            Some(v) => r matches Some(out) && op_view(out) == v,
            None => r is None,
        },
{
    Some(
        match op {
            Op::JUMP { dst } => match place(labels, dst) {
                Some(dst) => Op::JUMP { dst },
                None => {
                    return None;
                },
            },
            Op::JNZ { dst } => match place(labels, dst) {
                Some(dst) => Op::JNZ { dst },
                None => {
                    return None;
                },
            },
            Op::NIL => Op::NIL,
            Op::RET => Op::RET,
            Op::NOT => Op::NOT,
            Op::DUP => Op::DUP,
            Op::DROP => Op::DROP,
            Op::GLOBALS => Op::GLOBALS,
            Op::INS => Op::INS,
            Op::LOAD { src } => Op::LOAD { src },
            Op::STORE { dst } => Op::STORE { dst },
            Op::GROUP { num } => Op::GROUP { num },
            Op::PUSHI { value } => Op::PUSHI { value },
            Op::PUSHS { string } => Op::PUSHS { string },
            Op::PUSHN { name } => Op::PUSHN { name },
            Op::PAT { pat } => Op::PAT { pat },
            Op::LIST { len } => Op::LIST { len },
            Op::STR { len } => Op::STR { len },
            Op::REC => Op::REC,
            Op::CALL { name, argc } => Op::CALL { name, argc },
            Op::BINOP { op } => Op::BINOP { op },
            Op::MARK { len } => Op::MARK { len },
            Op::ASSERT { expr } => Op::ASSERT { expr },
        },
    )
}

impl Assembler {
    /// Seals the body: resolves every label to the index that it stands for.
    fn build(self) -> (r: Result<(InterpretedFn, Strings), Error>)
        ensures
            match sealed(self.view()) {
                Ok(code) => r matches Ok((f, strings)) && ops_view(f@) =~= code && strings@
                    == self.view().strings,
                Err(e) => r == Err::<(InterpretedFn, Strings), Error>(e),
            },
    {
        let ghost a = self.view();
        let labels = self.labels;
        let strings = self.strings;
        let mut code = self.code;
        let ghost all = code@;
        let mut out: Vec<Op> = Vec::new();
        let mut failed = false;
        while code.len() > 0
            invariant
                code@.len() <= all.len(),
                code@ =~= all.take(code@.len() as int),
                failed ==> exists|k: int|
                    0 <= k < all.len() && resolve_op(#[trigger] a.code[k], labels@) is None,
                !failed ==> out@.len() == all.len() - code@.len(),
                !failed ==> forall|j: int|
                    0 <= j < out@.len() ==> resolve_op(
                        a.code[all.len() - 1 - j],
                        labels@,
                    ) == Some(op_view(#[trigger] out@[j])),
                a.code == ops_view(all),
                a.labels == labels@,
            decreases code.len(),
        {
            let ghost k = code@.len() - 1;
            let op = code.pop().unwrap();
            assert(op == all[k]);
            assert(a.code[k] == op_view(op));
            match seal(op, &labels) {
                Some(op) => {
                    if !failed {
                        out.push(op);
                    }
                },
                None => {
                    failed = true;
                },
            }
        }
        if failed {
            return Err(Error::NoSuchLabel);
        }
        let mut sealed_code: Vec<Op> = Vec::new();
        while out.len() > 0
            invariant
                out@.len() + sealed_code@.len() == all.len(),
                all.len() == a.code.len(),
                forall|j: int|
                    0 <= j < out@.len() ==> resolve_op(
                        a.code[all.len() - 1 - j],
                        labels@,
                    ) == Some(op_view(#[trigger] out@[j])),
                forall|j: int|
                    0 <= j < sealed_code@.len() ==> resolve_op(a.code[j], labels@) == Some(
                        op_view(#[trigger] sealed_code@[j]),
                    ),
                a.labels == labels@,
            decreases out.len(),
        {
            let ghost j = out@.len() - 1;
            let op = out.pop().unwrap();
            assert(resolve_op(a.code[all.len() - 1 - j], labels@) == Some(op_view(op)));
            sealed_code.push(op);
        }
        proof {
            assert forall|i: int| 0 <= i < a.code.len() implies resolve_op(
                #[trigger] a.code[i],
                a.labels,
            ) is Some by {
                assert(resolve_op(a.code[i], labels@) == Some(op_view(sealed_code@[i])));
            }
            assert forall|i: int| 0 <= i < a.code.len() implies ops_view(sealed_code@)[i]
                == resolve_op(a.code[i], a.labels)->0 by {
                assert(resolve_op(a.code[i], labels@) == Some(op_view(sealed_code@[i])));
            }
        }
        Ok((InterpretedFn::from_vec(sealed_code), strings))
    }
}

/// The mathematical value of a function body.
pub enum FuncView {
    Native(NativeFn),
    Interpreted(Seq<OpView<usize>>),
}

/// The mathematical value of a module: the `BEGIN` body, the functions
/// with their names and arities, and the string pool.
#[verifier::ext_equal]
pub struct ModuleView {
    pub begin: Seq<OpView<usize>>,
    pub functions: Seq<(Seq<char>, Argc, FuncView)>,
    pub strings: Seq<Seq<char>>,
}

/// The value of a function body.
pub open spec fn func_view(f: Func) -> FuncView {
    match f {
        Func::Native(n) => FuncView::Native(n),
        Func::Interpreted(body) => FuncView::Interpreted(ops_view(body@)),
    }
}

/// The value of a function table.
pub open spec fn table_view(fs: Seq<(Ident, Argc, Func)>) -> Seq<(Seq<char>, Argc, FuncView)> {
    Seq::new(fs.len(), |i: int| (fs[i].0@, fs[i].1, func_view(fs[i].2)))
}

/// The value of a module.
pub open spec fn module_view(m: Module) -> ModuleView {
    ModuleView {
        begin: ops_view(m.begin@),
        functions: table_view(m.functions@),
        strings: m.strings@,
    }
}

/// The index of the first function of a table with the name `name`.
pub open spec fn table_find(table: Seq<(Seq<char>, Argc, FuncView)>, name: Seq<char>) -> Option<int>
    decreases table.len(),
{
    if table.len() == 0 {
        None
    } else {
        match table_find(table.drop_last(), name) {
            Some(i) => Some(i),
            None => if table.last().0 == name {
                Some(table.len() - 1)
            } else {
                None
            },
        }
    }
}

/// The table after a function has been defined: a function of that name is
/// replaced, a new one comes last.
pub open spec fn table_with(
    table: Seq<(Seq<char>, Argc, FuncView)>,
    name: Seq<char>,
    argc: Argc,
    func: FuncView,
) -> Seq<(Seq<char>, Argc, FuncView)> {
    match table_find(table, name) {
        Some(i) => table.update(i, (name, argc, func)),
        None => table.push((name, argc, func)),
    }
}

/// Why a module could not be assembled.
pub enum Failure {
    /// The assembler failed with this error.
    Plain(Error),
    /// The assembler failed in the body of the function of this name.
    InSub(Seq<char>, Error),
    /// This name of a host function is no identifier.
    BadName(Seq<char>),
}

/// Whether the error `e` tells the failure `f`.
pub open spec fn tells(e: Error, f: Failure) -> bool {
    match f {
        Failure::Plain(x) => e == x,
        Failure::InSub(name, x) => e matches Error::WithContext { context, cause } && context@
            == "sub "@ + name && *cause == x,
        Failure::BadName(name) => e matches Error::InvalidIdent { input } && input@ == name,
    }
}

/// Whether an assembly did what it should: it succeeded with a module of
/// the value that `want` gives, or failed with an error that tells the
/// failure of `want`.
pub open spec fn assembled(r: Result<(), Error>, post: Module, want: Result<ModuleView, Failure>) -> bool {
    match want {
        Ok(v) => r is Ok && module_view(post) =~~= v,
        Err(f) => r matches Err(e) && tells(e, f),
    }
}

/// The module after a function of the host has been registered.
pub open spec fn with_native(m: ModuleView, name: Seq<char>, argc: Argc, native: NativeFn) -> Result<
    ModuleView,
    Failure,
> {
    if valid_ident(name) {
        Ok(
            ModuleView {
                begin: m.begin,
                functions: table_with(m.functions, name, argc, FuncView::Native(native)),
                strings: pool_with(m.strings, name),
            },
        )
    } else {
        Err(Failure::BadName(name))
    }
}

/// The module after a function of the language has been defined: its body
/// is assembled in a scope of its parameters, gets a return of nil at its
/// end, and is sealed. The function takes exactly as many arguments as it
/// has parameters.
pub open spec fn with_def(m: ModuleView, def: ast::Def) -> Result<ModuleView, Failure> {
    match tr_stmts(def.body@, 0, fresh(def.args.0@, m.strings)) {
        Err(e) => Err(Failure::InSub(def.name@, e)),
        Ok(a) => match sealed(a.emit(OpView::NIL).emit(OpView::RET)) {
            Err(e) => Err(Failure::Plain(e)),
            Ok(code) => Ok(
                ModuleView {
                    begin: m.begin,
                    functions: table_with(
                        m.functions,
                        def.name@,
                        Argc::Exactly(def.args.0@.len() as usize),
                        FuncView::Interpreted(code),
                    ),
                    strings: a.strings,
                },
            ),
        },
    }
}

/// The module after the definitions `defs[i..]`.
pub open spec fn with_defs(m: ModuleView, defs: Seq<ast::Def>, i: int) -> Result<ModuleView, Failure>
    decreases defs.len() - i,
{
    if 0 <= i < defs.len() {
        match with_def(m, defs[i]) {
            Ok(next) => with_defs(next, defs, i + 1),
            Err(f) => Err(f),
        }
    } else {
        Ok(m)
    }
}

/// The module of the host's functions alone.
pub open spec fn stdlib_view() -> Result<ModuleView, Failure> {
    let empty = ModuleView { begin: Seq::empty(), functions: Seq::empty(), strings: Seq::empty() };
    match with_native(empty, "print"@, Argc::AtLeast(1), NativeFn::Print) {
        Ok(a) => match with_native(a, "str"@, Argc::AtLeast(1), NativeFn::Str) {
            Ok(b) => match with_native(b, "len"@, Argc::Exactly(1), NativeFn::Len) {
                Ok(c) => match with_native(c, "split"@, Argc::AtLeast(1), NativeFn::Split) {
                    Ok(d) => match with_native(d, "new"@, Argc::AtLeast(0), NativeFn::New) {
                        Ok(e) => match with_native(e, "assert"@, Argc::Exactly(1), NativeFn::Assert) {
                            Ok(f) => with_native(
                                f,
                                "assert_eq"@,
                                Argc::Exactly(2),
                                NativeFn::AssertEq,
                            ),
                            Err(x) => Err(x),
                        },
                        Err(x) => Err(x),
                    },
                    Err(x) => Err(x),
                },
                Err(x) => Err(x),
            },
            Err(x) => Err(x),
        },
        Err(x) => Err(x),
    }
}

/// The module that a source file assembles to: the host's functions, the
/// `BEGIN` body, and the functions of the file in their order.
pub open spec fn translated(m: ast::Module) -> Result<ModuleView, Failure> {
    match stdlib_view() {
        Err(f) => Err(f),
        Ok(std) => match tr_stmts(m.begin@, 0, fresh(Seq::empty(), std.strings)) {
            Err(e) => Err(Failure::Plain(e)),
            Ok(a) => match sealed(a) {
                Err(e) => Err(Failure::Plain(e)),
                Ok(code) => with_defs(
                    ModuleView { begin: code, functions: std.functions, strings: a.strings },
                    m.defs@,
                    0,
                ),
            },
        },
    }
}

proof fn table_find_extends(table: Seq<(Seq<char>, Argc, FuncView)>, name: Seq<char>, n: int)
    requires
        0 <= n <= table.len(),
        table_find(table.take(n), name) is Some,
    ensures
        table_find(table, name) == table_find(table.take(n), name),
    decreases table.len() - n,
{
    if n < table.len() {
        assert(table.take(n + 1).drop_last() =~= table.take(n));
        table_find_extends(table, name, n + 1);
    } else {
        assert(table.take(n) =~= table);
    }
}

impl Module {
    /// A module without functions and with an empty `BEGIN` body.
    pub fn empty() -> (m: Module)
        ensures
            module_view(m) =~~= (ModuleView {
                begin: Seq::empty(),
                functions: Seq::empty(),
                strings: Seq::empty(),
            }),
    {
        Module { begin: InterpretedFn::from_vec(Vec::new()), functions: Vec::new(), strings: Strings::new() }
    }

    /// Puts a function in the table: it replaces the function of its name,
    /// or comes last.
    fn insert(&mut self, name: Ident, argc: Argc, func: Func)
        ensures
            final(self).begin == old(self).begin,
            final(self).strings == old(self).strings,
            table_view(final(self).functions@) =~~= table_with(
                table_view(old(self).functions@),
                name@,
                argc,
                func_view(func),
            ),
    {
        let ghost table = table_view(self.functions@);
        let mut i: usize = 0;
        while i < self.functions.len()
            invariant
                i <= self.functions.len(),
                *self == *old(self),
                table == table_view(self.functions@),
                table_find(table.take(i as int), name@) is None,
            decreases self.functions.len() - i,
        {
            proof {
                assert(table.take(i + 1).drop_last() =~= table.take(i as int));
            }
            if self.functions[i].0.same_as(&name) {
                proof {
                    assert(table.take(i + 1).last() == table[i as int]);
                    table_find_extends(table, name@, i + 1);
                }
                self.functions[i] = (name, argc, func);
                return ;
            }
            i = i + 1;
        }
        assert(table.take(self.functions.len() as int) =~= table);
        self.functions.push((name, argc, func));
    }

    /// Registers a function of the host under `name`: one that the library
    /// brings, or one that the host keeps under a number of its own.
    pub fn def_native(&mut self, name: &str, argc: Argc, body: NativeFn) -> (r: Result<(), Error>)
        ensures
            assembled(r, *final(self), with_native(module_view(*old(self)), name@, argc, body)),
    {
        let name: Ident = match self.strings.intern(name) {
            Ok(name) => name,
            Err(e) => {
                return Err(e);
            },
        };
        self.insert(name, argc, Func::Native(body));
        Ok(())
    }

    /// The module of the host's functions: `print`, `str`, `len`, `split`,
    /// `new`, `assert` and `assert_eq`.
    pub fn stdlib() -> (r: Result<Module, Error>)
        ensures
            match stdlib_view() {
                Ok(v) => r matches Ok(m) && module_view(m) =~~= v,
                Err(f) => r matches Err(e) && tells(e, f),
            },
    {
        let mut std = Module::empty();
        match std.def_native("print", Argc::AtLeast(1), NativeFn::Print) {
            Ok(()) => {},
            Err(e) => {
                return Err(e);
            },
        }
        match std.def_native("str", Argc::AtLeast(1), NativeFn::Str) {
            Ok(()) => {},
            Err(e) => {
                return Err(e);
            },
        }
        match std.def_native("len", Argc::Exactly(1), NativeFn::Len) {
            Ok(()) => {},
            Err(e) => {
                return Err(e);
            },
        }
        match std.def_native("split", Argc::AtLeast(1), NativeFn::Split) {
            Ok(()) => {},
            Err(e) => {
                return Err(e);
            },
        }
        match std.def_native("new", Argc::AtLeast(0), NativeFn::New) {
            Ok(()) => {},
            Err(e) => {
                return Err(e);
            },
        }
        match std.def_native("assert", Argc::Exactly(1), NativeFn::Assert) {
            Ok(()) => {},
            Err(e) => {
                return Err(e);
            },
        }
        match std.def_native("assert_eq", Argc::Exactly(2), NativeFn::AssertEq) {
            Ok(()) => {},
            Err(e) => {
                return Err(e);
            },
        }
        Ok(std)
    }

    /// Defines a function of the language: assembles its body and puts it
    /// in the table. An error of a statement of the body is wrapped in the
    /// breadcrumb `sub` and the name of the function.
    pub fn def(&mut self, def: &ast::Def) -> (r: Result<(), Error>)
        ensures
            assembled(r, *final(self), with_def(module_view(*old(self)), *def)),
    {
        let mut strings = Strings::new();
        core::mem::swap(&mut strings, &mut self.strings);
        let mut it = Assembler::new(strings, &def.args.0);
        match it.tr_stmts(&def.body) {
            Ok(()) => {},
            Err(cause) => {
                let mut context = String::new();
                push_str(&mut context, "sub ");
                push_str(&mut context, def.name.as_str());
                return Err(Error::WithContext { context, cause: Box::new(cause) });
            },
        }
        it.emit(Op::NIL);
        it.emit(Op::RET);
        let (code, strings) = match it.build() {
            Ok(built) => built,
            Err(e) => {
                return Err(e);
            },
        };
        self.strings = strings;
        self.insert(
            def.name.clone(),
            Argc::Exactly(def.args.0.len()),
            Func::Interpreted(code),
        );
        Ok(())
    }
}

impl ast::Module {
    /// Assembles a source file: the host's functions, the `BEGIN` body, and
    /// the functions of the file.
    #[verifier::loop_isolation(false)]
    pub fn translate(self) -> (r: Result<Module, Error>)
        ensures
            match translated(self) {
                Ok(v) => r matches Ok(m) && module_view(m) =~~= v,
                Err(f) => r matches Err(e) && tells(e, f),
            },
    {
        let mut module = match Module::stdlib() {
            Ok(module) => module,
            Err(e) => {
                return Err(e);
            },
        };
        let mut strings = Strings::new();
        core::mem::swap(&mut strings, &mut module.strings);
        let mut it = Assembler::new(strings, &Vec::new());
        match it.tr_stmts(&self.begin) {
            Ok(()) => {},
            Err(e) => {
                return Err(e);
            },
        }
        let (code, strings) = match it.build() {
            Ok(built) => built,
            Err(e) => {
                return Err(e);
            },
        };
        module.begin = code;
        module.strings = strings;
        let mut i: usize = 0;
        let ghost start = module_view(module);
        while i < self.defs.len()
            invariant
                i <= self.defs.len(),
                with_defs(start, self.defs@, 0) == with_defs(module_view(module), self.defs@, i as int),
            decreases self.defs.len() - i,
        {
            match module.def(&self.defs[i]) {
                Ok(()) => {},
                Err(e) => {
                    return Err(e);
                },
            }
            i = i + 1;
        }
        Ok(module)
    }
}

/// Whether every symbol that has a place stands for an index into the
/// code made so far, or for its end.
pub open spec fn placed_within(a: Asm) -> bool {
    forall|i: int|
        0 <= i < a.labels.len() ==> ((#[trigger] a.labels[i]) matches Some(x) ==> x <= a.code.len())
}

/// Whether `b` is a later state of the assembler `a`: it has the code of
/// `a` and maybe more, and its symbols are placed within its code.
pub open spec fn grown(a: Asm, b: Asm) -> bool {
    a.code.len() <= b.code.len() && placed_within(b)
}

proof fn label_grows(a: Asm, sym: Sym)
    requires
        placed_within(a),
    ensures
        a.label(sym) matches Ok(b) ==> grown(a, b),
{
}

proof fn literal_grows(lit: ast::Literal, a: Asm)
    requires
        placed_within(a),
    ensures
        tr_literal(lit, a) matches Ok(b) ==> grown(a, b),
{
}

proof fn expr_grows(e: ast::Expr, a: Asm)
    requires
        placed_within(a),
    ensures
        tr_expr(e, a) matches Ok(b) ==> grown(a, b),
    decreases e,
{
    match e {
        ast::Expr::Parens(inner) => {
            expr_grows(*inner, a);
        },
        ast::Expr::Literal(lit) => {
            literal_grows(lit, a);
        },
        ast::Expr::List(items) => {
            exprs_grow(items@, 0, a);
        },
        ast::Expr::Str(items) => {
            exprs_grow(items@, 0, a);
        },
        ast::Expr::Record(pairs) => {
            pairs_grow(pairs@, 0, a.emit(OpView::REC));
        },
        ast::Expr::Binop { lhs, op, rhs } => {
            expr_grows(*lhs, a);
            match tr_expr(*lhs, a) {
                Ok(b) => {
                    expr_grows(*rhs, b);
                },
                Err(_) => {},
            }
        },
        ast::Expr::And { lhs, rhs } => {
            match a.gensym() {
                Ok((b, after)) => {
                    expr_grows(*lhs, b);
                    match tr_expr(*lhs, b) {
                        Ok(c) => {
                            let d = c.emit(OpView::DUP).emit(OpView::NOT).emit(
                                OpView::JNZ { dst: after },
                            ).emit(OpView::DROP);
                            expr_grows(*rhs, d);
                            match tr_expr(*rhs, d) {
                                Ok(f) => {
                                    label_grows(f, after);
                                },
                                Err(_) => {},
                            }
                        },
                        Err(_) => {},
                    }
                },
                Err(_) => {},
            }
        },
        ast::Expr::Or { lhs, rhs } => {
            match a.gensym() {
                Ok((b, after)) => {
                    expr_grows(*lhs, b);
                    match tr_expr(*lhs, b) {
                        Ok(c) => {
                            let d = c.emit(OpView::DUP).emit(OpView::JNZ { dst: after }).emit(
                                OpView::DROP,
                            );
                            expr_grows(*rhs, d);
                            match tr_expr(*rhs, d) {
                                Ok(f) => {
                                    label_grows(f, after);
                                },
                                Err(_) => {},
                            }
                        },
                        Err(_) => {},
                    }
                },
                Err(_) => {},
            }
        },
        ast::Expr::Not(inner) => {
            expr_grows(*inner, a);
        },
        ast::Expr::Call { name, args } => {
            exprs_grow(args@, 0, a);
        },
        _ => {},
    }
}

proof fn exprs_grow(es: Seq<ast::Expr>, i: int, a: Asm)
    requires
        placed_within(a),
    ensures
        tr_exprs(es, i, a) matches Ok(b) ==> grown(a, b),
    decreases es, es.len() - i,
{
    if 0 <= i < es.len() {
        expr_grows(es[i], a);
        match tr_expr(es[i], a) {
            Ok(b) => {
                exprs_grow(es, i + 1, b);
            },
            Err(_) => {},
        }
    }
}

proof fn pairs_grow(pairs: Seq<(Ident, ast::Expr)>, i: int, a: Asm)
    requires
        placed_within(a),
    ensures
        tr_pairs(pairs, i, a) matches Ok(b) ==> grown(a, b),
    decreases pairs, pairs.len() - i,
{
    if 0 <= i < pairs.len() {
        let b = a.emit(OpView::PUSHN { name: pairs[i].0@ });
        expr_grows(pairs[i].1, b);
        match tr_expr(pairs[i].1, b) {
            Ok(c) => {
                pairs_grow(pairs, i + 1, c.emit(OpView::INS));
            },
            Err(_) => {},
        }
    }
}

proof fn or_nil_grows(e: Option<ast::Expr>, a: Asm)
    requires
        placed_within(a),
    ensures
        tr_or_nil(e, a) matches Ok(b) ==> grown(a, b),
{
    match e {
        Some(e) => {
            expr_grows(e, a);
        },
        None => {},
    }
}

proof fn stmt_grows(s: ast::Stmt, a: Asm)
    requires
        placed_within(a),
    ensures
        tr_stmt(s, a) matches Ok(b) ==> grown(a, b),
    decreases s,
{
    match s {
        ast::Stmt::My { lhs, rhs } => {
            or_nil_grows(rhs, a);
        },
        ast::Stmt::Assign { lhs, rhs } => {
            expr_grows(rhs, a);
            match lhs {
                ast::Expr::Binop { lhs: target, op, rhs: idx } => {
                    match tr_expr(rhs, a) {
                        Ok(b) => {
                            expr_grows(*idx, b);
                            match tr_expr(*idx, b) {
                                Ok(c) => {
                                    expr_grows(*target, c);
                                },
                                Err(_) => {},
                            }
                        },
                        Err(_) => {},
                    }
                },
                _ => {},
            }
        },
        ast::Stmt::Return { rhs } => {
            or_nil_grows(rhs, a);
        },
        ast::Stmt::Assert { rhs } => {
            expr_grows(rhs, a);
        },
        ast::Stmt::If { clauses, last } => {
            match a.gensym() {
                Ok((b, after)) => {
                    tests_grow(clauses@, 0, Seq::empty(), b);
                    match tr_tests(clauses@, 0, Seq::empty(), b) {
                        Ok((c, labels)) => {
                            block_grows(last@, c);
                            match tr_block(last@, c) {
                                Ok(d) => {
                                    let f = d.emit(OpView::JUMP { dst: after });
                                    bodies_grow(clauses@, labels, 0, after, f);
                                    match tr_bodies(clauses@, labels, 0, after, f) {
                                        Ok(g) => {
                                            label_grows(g, after);
                                        },
                                        Err(_) => {},
                                    }
                                },
                                Err(_) => {},
                            }
                        },
                        Err(_) => {},
                    }
                },
                Err(_) => {},
            }
        },
        ast::Stmt::While { test, body } => {
            match a.gensym() {
                Ok((b, before)) => match b.gensym() {
                    Ok((c, after)) => {
                        expr_grows(test, c);
                        match tr_expr(test, c) {
                            Ok(d) => {
                                let f = d.emit(OpView::NOT).emit(OpView::JNZ { dst: after });
                                label_grows(f, before);
                                match f.label(before) {
                                    Ok(g) => {
                                        block_grows(body@, g);
                                        match tr_block(body@, g) {
                                            Ok(h) => {
                                                expr_grows(test, h);
                                                match tr_expr(test, h) {
                                                    Ok(k) => {
                                                        label_grows(
                                                            k.emit(OpView::JNZ { dst: before }),
                                                            after,
                                                        );
                                                    },
                                                    Err(_) => {},
                                                }
                                            },
                                            Err(_) => {},
                                        }
                                    },
                                    Err(_) => {},
                                }
                            },
                            Err(_) => {},
                        }
                    },
                    Err(_) => {},
                },
                Err(_) => {},
            }
        },
        ast::Stmt::Bare { rhs } => {
            expr_grows(rhs, a);
        },
        ast::Stmt::Nop => {},
    }
}

proof fn stmts_grow(ss: Seq<ast::Stmt>, i: int, a: Asm)
    requires
        placed_within(a),
    ensures
        tr_stmts(ss, i, a) matches Ok(b) ==> grown(a, b),
    decreases ss, ss.len() - i, 0int,
{
    if 0 <= i < ss.len() {
        stmt_grows(ss[i], a);
        match tr_stmt(ss[i], a) {
            Ok(b) => {
                stmts_grow(ss, i + 1, b);
            },
            Err(_) => {},
        }
    }
}

proof fn block_grows(ss: Seq<ast::Stmt>, a: Asm)
    requires
        placed_within(a),
    ensures
        tr_block(ss, a) matches Ok(b) ==> grown(a, b),
    decreases ss, ss.len() + 1, 1int,
{
    stmts_grow(ss, 0, Asm { scopes: a.scopes.push(Seq::empty()), ..a });
}

proof fn tests_grow(clauses: Seq<(ast::Expr, Vec<ast::Stmt>)>, i: int, labels: Seq<Sym>, a: Asm)
    requires
        placed_within(a),
    ensures
        tr_tests(clauses, i, labels, a) matches Ok((b, more)) ==> grown(a, b),
    decreases clauses, clauses.len() - i,
{
    if 0 <= i < clauses.len() {
        match a.gensym() {
            Ok((b, label)) => {
                expr_grows(clauses[i].0, b);
                match tr_expr(clauses[i].0, b) {
                    Ok(c) => {
                        tests_grow(
                            clauses,
                            i + 1,
                            labels.push(label),
                            c.emit(OpView::JNZ { dst: label }),
                        );
                    },
                    Err(_) => {},
                }
            },
            Err(_) => {},
        }
    }
}

proof fn bodies_grow(
    clauses: Seq<(ast::Expr, Vec<ast::Stmt>)>,
    labels: Seq<Sym>,
    i: int,
    after: Sym,
    a: Asm,
)
    requires
        placed_within(a),
    ensures
        tr_bodies(clauses, labels, i, after, a) matches Ok(b) ==> grown(a, b),
    decreases clauses, clauses.len() - i,
{
    if 0 <= i < clauses.len() && i < labels.len() {
        label_grows(a, labels[i]);
        match a.label(labels[i]) {
            Ok(b) => {
                block_grows(clauses[i].1@, b);
                match tr_block(clauses[i].1@, b) {
                    Ok(c) => {
                        bodies_grow(clauses, labels, i + 1, after, c.emit(OpView::JUMP { dst: after }));
                    },
                    Err(_) => {},
                }
            },
            Err(_) => {},
        }
    }
}

/// Whether every jump of a sealed body goes to an index into the body, or
/// to its end.
pub open spec fn targets_within(code: Seq<OpView<usize>>) -> bool {
    forall|i: int|
        0 <= i < code.len() ==> match #[trigger] code[i] {
            OpView::JUMP { dst } => dst <= code.len(),
            OpView::JNZ { dst } => dst <= code.len(),
            _ => true,
        }
}

/// Whether every body of a module has its jumps within it.
pub open spec fn jumps_within(m: ModuleView) -> bool {
    &&& targets_within(m.begin)
    &&& forall|i: int|
        0 <= i < m.functions.len() ==> ((#[trigger] m.functions[i]).2 matches FuncView::Interpreted(
            code,
        ) ==> targets_within(code))
}

proof fn sealed_within(a: Asm)
    requires
        placed_within(a),
    ensures
        sealed(a) matches Ok(code) ==> targets_within(code),
{
    match sealed(a) {
        Ok(code) => {
            assert forall|i: int| 0 <= i < code.len() implies match #[trigger] code[i] {
                OpView::JUMP { dst } => dst <= code.len(),
                OpView::JNZ { dst } => dst <= code.len(),
                _ => true,
            } by {
                assert(resolve_op(a.code[i], a.labels) is Some);
                match a.code[i] {
                    OpView::JUMP { dst } => {
                        assert(a.labels[dst.0 as int] is Some);
                    },
                    OpView::JNZ { dst } => {
                        assert(a.labels[dst.0 as int] is Some);
                    },
                    _ => {},
                }
            }
        },
        Err(_) => {},
    }
}

proof fn table_with_within(m: ModuleView, name: Seq<char>, argc: Argc, func: FuncView)
    requires
        jumps_within(m),
        func matches FuncView::Interpreted(code) ==> targets_within(code),
    ensures
        jumps_within(
            ModuleView {
                begin: m.begin,
                functions: table_with(m.functions, name, argc, func),
                strings: m.strings,
            },
        ),
{
    let table = table_with(m.functions, name, argc, func);
    table_find_bound(m.functions, name);
    assert forall|i: int| 0 <= i < table.len() implies ((#[trigger] table[i]).2 matches FuncView::Interpreted(
        code,
    ) ==> targets_within(code)) by {
        match table_find(m.functions, name) {
            Some(k) => {
                if i != k {
                    assert(table[i] == m.functions[i]);
                }
            },
            None => {
                if i < m.functions.len() {
                    assert(table[i] == m.functions[i]);
                }
            },
        }
    }
}

proof fn table_find_bound(table: Seq<(Seq<char>, Argc, FuncView)>, name: Seq<char>)
    ensures
        table_find(table, name) matches Some(i) ==> 0 <= i < table.len(),
    decreases table.len(),
{
    if table.len() > 0 {
        table_find_bound(table.drop_last(), name);
    }
}

proof fn def_within(m: ModuleView, def: ast::Def)
    requires
        jumps_within(m),
    ensures
        with_def(m, def) matches Ok(n) ==> jumps_within(n),
{
    let start = fresh(def.args.0@, m.strings);
    stmts_grow(def.body@, 0, start);
    match tr_stmts(def.body@, 0, start) {
        Ok(a) => {
            let b = a.emit(OpView::NIL).emit(OpView::RET);
            sealed_within(b);
            match sealed(b) {
                Ok(code) => {
                    table_with_within(
                        ModuleView { begin: m.begin, functions: m.functions, strings: a.strings },
                        def.name@,
                        Argc::Exactly(def.args.0@.len() as usize),
                        FuncView::Interpreted(code),
                    );
                },
                Err(_) => {},
            }
        },
        Err(_) => {},
    }
}

proof fn defs_within(m: ModuleView, defs: Seq<ast::Def>, i: int)
    requires
        jumps_within(m),
    ensures
        with_defs(m, defs, i) matches Ok(n) ==> jumps_within(n),
    decreases defs.len() - i,
{
    if 0 <= i < defs.len() {
        def_within(m, defs[i]);
        match with_def(m, defs[i]) {
            Ok(next) => {
                defs_within(next, defs, i + 1);
            },
            Err(_) => {},
        }
    }
}

proof fn native_within(m: ModuleView, name: Seq<char>, argc: Argc, native: NativeFn)
    requires
        jumps_within(m),
    ensures
        with_native(m, name, argc, native) matches Ok(n) ==> jumps_within(n),
{
    if valid_ident(name) {
        table_with_within(
            ModuleView { begin: m.begin, functions: m.functions, strings: pool_with(m.strings, name) },
            name,
            argc,
            FuncView::Native(native),
        );
    }
}

proof fn stdlib_within()
    ensures
        stdlib_view() matches Ok(m) ==> jumps_within(m),
{
    let empty = ModuleView { begin: Seq::empty(), functions: Seq::empty(), strings: Seq::empty() };
    native_within(empty, "print"@, Argc::AtLeast(1), NativeFn::Print);
    match with_native(empty, "print"@, Argc::AtLeast(1), NativeFn::Print) {
        Ok(a) => {
            native_within(a, "str"@, Argc::AtLeast(1), NativeFn::Str);
            match with_native(a, "str"@, Argc::AtLeast(1), NativeFn::Str) {
                Ok(b) => {
                    native_within(b, "len"@, Argc::Exactly(1), NativeFn::Len);
                    match with_native(b, "len"@, Argc::Exactly(1), NativeFn::Len) {
                        Ok(c) => {
                            native_within(c, "split"@, Argc::AtLeast(1), NativeFn::Split);
                            match with_native(c, "split"@, Argc::AtLeast(1), NativeFn::Split) {
                                Ok(d) => {
                                    native_within(d, "new"@, Argc::AtLeast(0), NativeFn::New);
                                    match with_native(d, "new"@, Argc::AtLeast(0), NativeFn::New) {
                                        Ok(e) => {
                                            native_within(
                                                e,
                                                "assert"@,
                                                Argc::Exactly(1),
                                                NativeFn::Assert,
                                            );
                                            match with_native(
                                                e,
                                                "assert"@,
                                                Argc::Exactly(1),
                                                NativeFn::Assert,
                                            ) {
                                                Ok(f) => {
                                                    native_within(
                                                        f,
                                                        "assert_eq"@,
                                                        Argc::Exactly(2),
                                                        NativeFn::AssertEq,
                                                    );
                                                },
                                                Err(_) => {},
                                            }
                                        },
                                        Err(_) => {},
                                    }
                                },
                                Err(_) => {},
                            }
                        },
                        Err(_) => {},
                    }
                },
                Err(_) => {},
            }
        },
        Err(_) => {},
    }
}

/// The assembler resolves every label: in a module that a source file
/// assembles to, every jump of every body goes to an index into that body,
/// or to its end.
pub proof fn jumps_stay_in_their_body(source: ast::Module)
    ensures
        translated(source) matches Ok(m) ==> jumps_within(m),
{
    stdlib_within();
    match stdlib_view() {
        Ok(std) => {
            let start = fresh(Seq::empty(), std.strings);
            stmts_grow(source.begin@, 0, start);
            match tr_stmts(source.begin@, 0, start) {
                Ok(a) => {
                    sealed_within(a);
                    match sealed(a) {
                        Ok(code) => {
                            defs_within(
                                ModuleView {
                                    begin: code,
                                    functions: std.functions,
                                    strings: a.strings,
                                },
                                source.defs@,
                                0,
                            );
                        },
                        Err(_) => {},
                    }
                },
                Err(_) => {},
            }
        },
        Err(_) => {},
    }
}

/// Assembling is deterministic: two modules that one source file assembles
/// to have the same value, instruction for instruction.
pub proof fn assembling_is_deterministic(source: ast::Module, first: Module, second: Module)
    requires
        translated(source) matches Ok(v) && module_view(first) =~~= v,
        translated(source) matches Ok(v) && module_view(second) =~~= v,
    ensures
        module_view(first) == module_view(second),
{
}

} // verus!

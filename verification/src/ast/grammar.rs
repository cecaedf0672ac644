//! The grammar of the language: from tokens to syntax trees.

use vstd::prelude::*;
use crate::ast::{
    clauses_view, clauses_view_push, def_view, expr_view, exprs_view, exprs_view_push, pairs_view,
    pairs_view_push, stmt_view, stmts_view, stmts_view_push, Args, Binop, Def, DefView, Expr,
    ExprView, Literal, LiteralView, Module, SourceView, Stmt, StmtView,
};
use crate::error::Error;
use crate::ident::Ident;
use crate::pattern::compile::{group_maps_view, group_refused, made_by, refused_by};
use crate::pattern::parse::{ast_view, naming, var_name};
use crate::pattern::Var;
use crate::text::{byte_offset, same_text};
use crate::token::{
    lex_all, lex_at, lex_progress, lex_reports, lex_starts, lex_tells, token_view, tokens_view,
    Interp, LexError, Lexed, Spanned, Token, TokenView,
};

verus! {

/// The token at index `i`, if there is one.
pub open spec fn at(ts: Seq<Token>, i: int) -> Option<Token> {
    if 0 <= i < ts.len() {
        Some(ts[i])
    } else {
        None
    }
}

/// The expression that a piece of an interpolated string stands for.
pub open spec fn piece(i: Interp) -> ExprView {
    match i {
        Interp::S(s) => ExprView::Literal(LiteralView::Str(s@)),
        Interp::V(id) => ExprView::Local(id@),
        Interp::G(id) => ExprView::Global(id@),
        Interp::C(n) => ExprView::Group(n),
    }
}

/// The expressions that the pieces of an interpolated string stand for.
pub open spec fn pieces(items: Seq<Interp>) -> Seq<ExprView> {
    Seq::new(items.len(), |k: int| piece(items[k]))
}

/// A binary expression.
pub open spec fn binary(lhs: ExprView, op: Binop, rhs: ExprView) -> ExprView {
    ExprView::Binop { lhs: Box::new(lhs), op, rhs: Box::new(rhs) }
}

/// The operator of a product, if the token is one.
pub open spec fn mul_op(t: Option<Token>) -> Option<Binop> {
    match t {
        Some(Token::MUL) => Some(Binop::Mul),
        Some(Token::DIV) => Some(Binop::Div),
        _ => None,
    }
}

/// The operator of a sum, if the token is one.
pub open spec fn add_op(t: Option<Token>) -> Option<Binop> {
    match t {
        Some(Token::ADD) => Some(Binop::Add),
        Some(Token::SUB) => Some(Binop::Sub),
        _ => None,
    }
}

/// The operator of a comparison, if the token is one.
pub open spec fn rel_op(t: Option<Token>) -> Option<Binop> {
    match t {
        Some(Token::EQ) => Some(Binop::Equal),
        Some(Token::NE) => Some(Binop::NotEqual),
        Some(Token::MATCH) => Some(Binop::Match),
        _ => None,
    }
}

/// A primary expression at token `i`: a literal, a variable, a group, `()`
/// for nil, an expression in parentheses, a call, a list in brackets, or a
/// record in braces. The result is the expression and the index after it,
/// or the index of the token that is out of place.
pub open spec fn primary_at(ts: Seq<Token>, i: int) -> Result<(ExprView, int), int>
    decreases ts.len() - i, 0int,
{
    match at(ts, i) {
        None => Err(i),
        Some(t) => match t {
            Token::INT(n) => Ok((ExprView::Literal(LiteralView::Int(n)), i + 1)),
            Token::STR(items) => Ok((ExprView::Str(pieces(items@)), i + 1)),
            Token::SYM(id) => Ok((ExprView::Literal(LiteralView::Ident(id@)), i + 1)),
            Token::PAT(p) => Ok(
                (ExprView::Literal(LiteralView::Pattern(ast_view(naming(), p))), i + 1),
            ),
            Token::VAR(id) => Ok((ExprView::Local(id@), i + 1)),
            Token::GLOBAL(id) => Ok((ExprView::Global(id@), i + 1)),
            Token::GROUP(n) => Ok((ExprView::Group(n), i + 1)),
            Token::LPAR => if at(ts, i + 1) matches Some(Token::RPAR) {
                Ok((ExprView::Literal(LiteralView::Nil), i + 2))
            } else {
                match expr_at(ts, i + 1) {
                    Ok((e, j)) => if at(ts, j) matches Some(Token::RPAR) {
                        Ok((ExprView::Parens(Box::new(e)), j + 1))
                    } else {
                        Err(j)
                    },
                    Err(k) => Err(k),
                }
            },
            Token::NEARWORD(name) => if at(ts, i + 1) matches Some(Token::LPAR) {
                match args_at(ts, i + 2, false) {
                    Ok((args, j)) => Ok((ExprView::Call { name: name@, args }, j)),
                    Err(k) => Err(k),
                }
            } else {
                Err(i + 1)
            },
            Token::LSQB => match args_at(ts, i + 1, true) {
                Ok((items, j)) => Ok((ExprView::List(items), j)),
                Err(k) => Err(k),
            },
            Token::LCBR => match pairs_at(ts, i + 1) {
                Ok((pairs, j)) => Ok((ExprView::Record(pairs), j)),
                Err(k) => Err(k),
            },
            _ => Err(i),
        },
    }
}

/// Whether the token closes a list of arguments: `]` for a list in
/// brackets, `)` for the arguments of a call.
pub open spec fn closes(t: Option<Token>, square: bool) -> bool {
    if square {
        t matches Some(Token::RSQB)
    } else {
        t matches Some(Token::RPAR)
    }
}

/// Expressions separated by commas up to the closing token.
pub open spec fn args_at(ts: Seq<Token>, i: int, square: bool) -> Result<(Seq<ExprView>, int), int>
    decreases ts.len() - i, 22int,
{
    if closes(at(ts, i), square) {
        Ok((Seq::empty(), i + 1))
    } else {
        args_more(ts, i, square, Seq::empty())
    }
}

/// One more expression of a list, and those that follow it.
pub open spec fn args_more(ts: Seq<Token>, i: int, square: bool, acc: Seq<ExprView>) -> Result<
    (Seq<ExprView>, int),
    int,
>
    decreases ts.len() - i, 21int,
{
    match expr_at(ts, i) {
        Ok((e, j)) => if closes(at(ts, j), square) {
            Ok((acc.push(e), j + 1))
        } else if at(ts, j) matches Some(Token::COMMA) && j >= i {
            args_more(ts, j + 1, square, acc.push(e))
        } else {
            Err(j)
        },
        Err(k) => Err(k),
    }
}

/// The entries of a record, each a bare word, a colon and an expression,
/// separated by commas up to the closing brace.
pub open spec fn pairs_at(ts: Seq<Token>, i: int) -> Result<(Seq<(Seq<char>, ExprView)>, int), int>
    decreases ts.len() - i, 22int,
{
    if at(ts, i) matches Some(Token::RCBR) {
        Ok((Seq::empty(), i + 1))
    } else {
        pairs_more(ts, i, Seq::empty())
    }
}

/// One more entry of a record, and those that follow it.
pub open spec fn pairs_more(ts: Seq<Token>, i: int, acc: Seq<(Seq<char>, ExprView)>) -> Result<
    (Seq<(Seq<char>, ExprView)>, int),
    int,
>
    decreases ts.len() - i, 21int,
{
    match at(ts, i) {
        Some(Token::FARWORD(key)) => if at(ts, i + 1) matches Some(Token::COLON) {
            match expr_at(ts, i + 2) {
                Ok((e, j)) => if at(ts, j) matches Some(Token::RCBR) {
                    Ok((acc.push((key@, e)), j + 1))
                } else if at(ts, j) matches Some(Token::COMMA) && j >= i {
                    pairs_more(ts, j + 1, acc.push((key@, e)))
                } else {
                    Err(j)
                },
                Err(k) => Err(k),
            }
        } else {
            Err(i + 1)
        },
        _ => Err(i),
    }
}

/// A primary expression with the indexings that follow it.
pub open spec fn postfix_at(ts: Seq<Token>, i: int) -> Result<(ExprView, int), int>
    decreases ts.len() - i, 2int,
{
    match primary_at(ts, i) {
        Ok((e, j)) => if i < j <= ts.len() {
            postfix_more(ts, j, e)
        } else {
            Err(j)
        },
        Err(k) => Err(k),
    }
}

/// The indexings that follow the expression `lhs`.
pub open spec fn postfix_more(ts: Seq<Token>, i: int, lhs: ExprView) -> Result<(ExprView, int), int>
    decreases ts.len() - i, 1int,
{
    if at(ts, i) matches Some(Token::LSQB) {
        match expr_at(ts, i + 1) {
            Ok((idx, j)) => if at(ts, j) matches Some(Token::RSQB) && j >= i {
                postfix_more(ts, j + 1, binary(lhs, Binop::Idx, idx))
            } else {
                Err(j)
            },
            Err(k) => Err(k),
        }
    } else {
        Ok((lhs, i))
    }
}

/// A product: postfix expressions joined by `*` and `/`, from the left.
pub open spec fn mul_at(ts: Seq<Token>, i: int) -> Result<(ExprView, int), int>
    decreases ts.len() - i, 4int,
{
    match postfix_at(ts, i) {
        Ok((e, j)) => if i < j <= ts.len() {
            mul_more(ts, j, e)
        } else {
            Err(j)
        },
        Err(k) => Err(k),
    }
}

/// The factors that follow the product `lhs`.
pub open spec fn mul_more(ts: Seq<Token>, i: int, lhs: ExprView) -> Result<(ExprView, int), int>
    decreases ts.len() - i, 3int,
{
    match mul_op(at(ts, i)) {
        Some(op) => match postfix_at(ts, i + 1) {
            Ok((rhs, j)) => if i < j <= ts.len() {
                mul_more(ts, j, binary(lhs, op, rhs))
            } else {
                Err(j)
            },
            Err(k) => Err(k),
        },
        None => Ok((lhs, i)),
    }
}

/// A sum: products joined by `+` and `-`, from the left.
pub open spec fn add_at(ts: Seq<Token>, i: int) -> Result<(ExprView, int), int>
    decreases ts.len() - i, 6int,
{
    match mul_at(ts, i) {
        Ok((e, j)) => if i < j <= ts.len() {
            add_more(ts, j, e)
        } else {
            Err(j)
        },
        Err(k) => Err(k),
    }
}

/// The terms that follow the sum `lhs`.
pub open spec fn add_more(ts: Seq<Token>, i: int, lhs: ExprView) -> Result<(ExprView, int), int>
    decreases ts.len() - i, 5int,
{
    match add_op(at(ts, i)) {
        Some(op) => match mul_at(ts, i + 1) {
            Ok((rhs, j)) => if i < j <= ts.len() {
                add_more(ts, j, binary(lhs, op, rhs))
            } else {
                Err(j)
            },
            Err(k) => Err(k),
        },
        None => Ok((lhs, i)),
    }
}

/// A comparison: sums joined by `eq`, `ne` and `=~`, from the left.
pub open spec fn rel_at(ts: Seq<Token>, i: int) -> Result<(ExprView, int), int>
    decreases ts.len() - i, 8int,
{
    match add_at(ts, i) {
        Ok((e, j)) => if i < j <= ts.len() {
            rel_more(ts, j, e)
        } else {
            Err(j)
        },
        Err(k) => Err(k),
    }
}

/// The sums that the comparison `lhs` is compared with.
pub open spec fn rel_more(ts: Seq<Token>, i: int, lhs: ExprView) -> Result<(ExprView, int), int>
    decreases ts.len() - i, 7int,
{
    match rel_op(at(ts, i)) {
        Some(op) => match add_at(ts, i + 1) {
            Ok((rhs, j)) => if i < j <= ts.len() {
                rel_more(ts, j, binary(lhs, op, rhs))
            } else {
                Err(j)
            },
            Err(k) => Err(k),
        },
        None => Ok((lhs, i)),
    }
}

/// A negation: `not` before a negation, or a comparison.
pub open spec fn not_at(ts: Seq<Token>, i: int) -> Result<(ExprView, int), int>
    decreases ts.len() - i, 9int,
{
    if at(ts, i) matches Some(Token::NOT) {
        match not_at(ts, i + 1) {
            Ok((e, j)) => Ok((ExprView::Not(Box::new(e)), j)),
            Err(k) => Err(k),
        }
    } else {
        rel_at(ts, i)
    }
}

/// A conjunction: negations joined by `and`, from the left.
pub open spec fn and_at(ts: Seq<Token>, i: int) -> Result<(ExprView, int), int>
    decreases ts.len() - i, 11int,
{
    match not_at(ts, i) {
        Ok((e, j)) => if i < j <= ts.len() {
            and_more(ts, j, e)
        } else {
            Err(j)
        },
        Err(k) => Err(k),
    }
}

/// The negations that follow the conjunction `lhs`.
pub open spec fn and_more(ts: Seq<Token>, i: int, lhs: ExprView) -> Result<(ExprView, int), int>
    decreases ts.len() - i, 10int,
{
    if at(ts, i) matches Some(Token::AND) {
        match not_at(ts, i + 1) {
            Ok((rhs, j)) => if i < j <= ts.len() {
                and_more(ts, j, ExprView::And { lhs: Box::new(lhs), rhs: Box::new(rhs) })
            } else {
                Err(j)
            },
            Err(k) => Err(k),
        }
    } else {
        Ok((lhs, i))
    }
}

/// An expression: conjunctions joined by `or`, from the left.
pub open spec fn expr_at(ts: Seq<Token>, i: int) -> Result<(ExprView, int), int>
    decreases ts.len() - i, 13int,
{
    match and_at(ts, i) {
        Ok((e, j)) => if i < j <= ts.len() {
            or_more(ts, j, e)
        } else {
            Err(j)
        },
        Err(k) => Err(k),
    }
}

/// The conjunctions that follow the disjunction `lhs`.
pub open spec fn or_more(ts: Seq<Token>, i: int, lhs: ExprView) -> Result<(ExprView, int), int>
    decreases ts.len() - i, 12int,
{
    if at(ts, i) matches Some(Token::OR) {
        match and_at(ts, i + 1) {
            Ok((rhs, j)) => if i < j <= ts.len() {
                or_more(ts, j, ExprView::Or { lhs: Box::new(lhs), rhs: Box::new(rhs) })
            } else {
                Err(j)
            },
            Err(k) => Err(k),
        }
    } else {
        Ok((lhs, i))
    }
}

/// An expression and the `;` that ends a statement.
pub open spec fn ended(ts: Seq<Token>, i: int) -> Result<(ExprView, int), int> {
    match expr_at(ts, i) {
        Ok((e, j)) => if at(ts, j) matches Some(Token::EOL) {
            Ok((e, j + 1))
        } else {
            Err(j)
        },
        Err(k) => Err(k),
    }
}

/// A statement at token `i`.
pub open spec fn stmt_at(ts: Seq<Token>, i: int) -> Result<(StmtView, int), int>
    decreases ts.len() - i, 30int,
{
    match at(ts, i) {
        None => Err(i),
        Some(Token::LET) => match at(ts, i + 1) {
            Some(Token::VAR(id)) => match at(ts, i + 2) {
                Some(Token::EQUAL) => match ended(ts, i + 3) {
                    Ok((e, j)) => Ok((StmtView::My { lhs: id@, rhs: Some(e) }, j)),
                    Err(k) => Err(k),
                },
                Some(Token::EOL) => Ok((StmtView::My { lhs: id@, rhs: None }, i + 3)),
                _ => Err(i + 2),
            },
            _ => Err(i + 1),
        },
        Some(Token::RETURN) => if at(ts, i + 1) matches Some(Token::EOL) {
            Ok((StmtView::Return { rhs: None }, i + 2))
        } else {
            match ended(ts, i + 1) {
                Ok((e, j)) => Ok((StmtView::Return { rhs: Some(e) }, j)),
                Err(k) => Err(k),
            }
        },
        Some(Token::ASSERT) => match ended(ts, i + 1) {
            Ok((e, j)) => Ok((StmtView::Assert { rhs: e }, j)),
            Err(k) => Err(k),
        },
        Some(Token::IF) => match expr_at(ts, i + 1) {
            Ok((test, j)) => if i < j <= ts.len() {
                match block_at(ts, j) {
                    Ok((body, k)) => if i < k <= ts.len() {
                        else_at(ts, k, seq![(test, body)])
                    } else {
                        Err(k)
                    },
                    Err(k) => Err(k),
                }
            } else {
                Err(j)
            },
            Err(k) => Err(k),
        },
        Some(Token::WHILE) => match expr_at(ts, i + 1) {
            Ok((test, j)) => if i < j <= ts.len() {
                match block_at(ts, j) {
                    Ok((body, k)) => Ok((StmtView::While { test, body }, k)),
                    Err(k) => Err(k),
                }
            } else {
                Err(j)
            },
            Err(k) => Err(k),
        },
        Some(Token::EOL) => Ok((StmtView::Nop, i + 1)),
        Some(_) => match expr_at(ts, i) {
            Ok((lhs, j)) => match at(ts, j) {
                Some(Token::EQUAL) => match ended(ts, j + 1) {
                    Ok((rhs, k)) => Ok((StmtView::Assign { lhs, rhs }, k)),
                    Err(k) => Err(k),
                },
                Some(Token::EOL) => Ok((StmtView::Bare { rhs: lhs }, j + 1)),
                _ => Err(j),
            },
            Err(k) => Err(k),
        },
    }
}

/// What follows the clauses of an `if`: `else if` with one more clause,
/// `else` with the last block, or nothing.
pub open spec fn else_at(ts: Seq<Token>, i: int, clauses: Seq<(ExprView, Seq<StmtView>)>) -> Result<
    (StmtView, int),
    int,
>
    decreases ts.len() - i, 29int,
{
    if at(ts, i) matches Some(Token::ELSE) {
        if at(ts, i + 1) matches Some(Token::IF) {
            match expr_at(ts, i + 2) {
                Ok((test, j)) => if i < j <= ts.len() {
                    match block_at(ts, j) {
                        Ok((body, k)) => if i < k <= ts.len() {
                            else_at(ts, k, clauses.push((test, body)))
                        } else {
                            Err(k)
                        },
                        Err(k) => Err(k),
                    }
                } else {
                    Err(j)
                },
                Err(k) => Err(k),
            }
        } else {
            match block_at(ts, i + 1) {
                Ok((last, k)) => Ok((StmtView::If { clauses, last }, k)),
                Err(k) => Err(k),
            }
        }
    } else {
        Ok((StmtView::If { clauses, last: Seq::empty() }, i))
    }
}

/// A block: statements in braces.
pub open spec fn block_at(ts: Seq<Token>, i: int) -> Result<(Seq<StmtView>, int), int>
    decreases ts.len() - i, 32int,
{
    if at(ts, i) matches Some(Token::LCBR) {
        block_more(ts, i + 1, Seq::empty())
    } else {
        Err(i)
    }
}

/// The statements of a block that follow `acc`, up to the closing brace.
pub open spec fn block_more(ts: Seq<Token>, i: int, acc: Seq<StmtView>) -> Result<
    (Seq<StmtView>, int),
    int,
>
    decreases ts.len() - i, 31int,
{
    if at(ts, i) matches Some(Token::RCBR) {
        Ok((acc, i + 1))
    } else {
        match stmt_at(ts, i) {
            Ok((s, j)) => if i < j <= ts.len() {
                block_more(ts, j, acc.push(s))
            } else {
                Err(j)
            },
            Err(k) => Err(k),
        }
    }
}

/// The statements that follow `acc`, up to the end of the tokens.
pub open spec fn statements_at(ts: Seq<Token>, i: int, acc: Seq<StmtView>) -> Result<Seq<StmtView>, int>
    decreases ts.len() - i,
{
    if at(ts, i) is None {
        Ok(acc)
    } else {
        match stmt_at(ts, i) {
            Ok((s, j)) => if i < j <= ts.len() {
                statements_at(ts, j, acc.push(s))
            } else {
                Err(j)
            },
            Err(k) => Err(k),
        }
    }
}

/// The parameters of a definition: variables separated by commas up to
/// the closing parenthesis.
pub open spec fn params_at(ts: Seq<Token>, i: int) -> Result<(Seq<Seq<char>>, int), int> {
    if at(ts, i) matches Some(Token::RPAR) {
        Ok((Seq::empty(), i + 1))
    } else {
        params_more(ts, i, Seq::empty())
    }
}

/// One more parameter, and those that follow it.
pub open spec fn params_more(ts: Seq<Token>, i: int, acc: Seq<Seq<char>>) -> Result<
    (Seq<Seq<char>>, int),
    int,
>
    decreases ts.len() - i,
{
    match at(ts, i) {
        Some(Token::VAR(id)) => match at(ts, i + 1) {
            Some(Token::RPAR) => Ok((acc.push(id@), i + 2)),
            Some(Token::COMMA) => params_more(ts, i + 2, acc.push(id@)),
            _ => Err(i + 1),
        },
        _ => Err(i),
    }
}

/// A function definition: `sub`, the name, the parameters in parentheses,
/// and the body in braces.
pub open spec fn def_at(ts: Seq<Token>, i: int) -> Result<(DefView, int), int> {
    match at(ts, i) {
        Some(Token::DEF) => match at(ts, i + 1) {
            Some(Token::NEARWORD(name)) => match at(ts, i + 2) {
                Some(Token::LPAR) => match params_at(ts, i + 3) {
                    Ok((args, j)) => match block_at(ts, j) {
                        Ok((body, k)) => Ok((DefView { name: name@, args, body }, k)),
                        Err(k) => Err(k),
                    },
                    Err(k) => Err(k),
                },
                _ => Err(i + 2),
            },
            _ => Err(i + 1),
        },
        _ => Err(i),
    }
}

/// A source file from token `i` on: function definitions and `BEGIN`
/// blocks, whose statements make the `BEGIN` body in their order.
#[verifier::opaque]
pub open spec fn module_at(ts: Seq<Token>, i: int, m: SourceView) -> Result<SourceView, int>
    decreases ts.len() - i,
{
    match at(ts, i) {
        None => Ok(m),
        Some(Token::DEF) => match def_at(ts, i) {
            Ok((def, j)) => if i < j <= ts.len() {
                module_at(ts, j, SourceView { begin: m.begin, defs: m.defs.push(def) })
            } else {
                Err(j)
            },
            Err(k) => Err(k),
        },
        Some(Token::FARWORD(word)) => if word@ == "BEGIN"@ {
            match block_at(ts, i + 1) {
                Ok((body, j)) => if i < j <= ts.len() {
                    module_at(ts, j, SourceView { begin: m.begin + body, defs: m.defs })
                } else {
                    Err(j)
                },
                Err(k) => Err(k),
            }
        } else {
            Err(i)
        },
        Some(_) => Err(i),
    }
}

/// Whether a parser did what it should: it read the expression that
/// `want` gives and stands after it, or stopped at the token that `want`
/// says is out of place.
pub open spec fn parsed_expr(r: Result<(Expr, usize), usize>, want: Result<(ExprView, int), int>) -> bool {
    match want {
        Ok((v, j)) => r matches Ok((e, k)) && expr_view(e) == v && k == j,
        Err(x) => r matches Err(k) && k == x,
    }
}

/// Whether a parser read the expressions that `want` gives.
pub open spec fn parsed_exprs(
    r: Result<(Vec<Expr>, usize), usize>,
    want: Result<(Seq<ExprView>, int), int>,
) -> bool {
    match want {
        Ok((v, j)) => r matches Ok((es, k)) && exprs_view(es@) == v && k == j,
        Err(x) => r matches Err(k) && k == x,
    }
}

/// Whether a parser read the entries that `want` gives.
pub open spec fn parsed_pairs(
    r: Result<(Vec<(Ident, Expr)>, usize), usize>,
    want: Result<(Seq<(Seq<char>, ExprView)>, int), int>,
) -> bool {
    match want {
        Ok((v, j)) => r matches Ok((ps, k)) && pairs_view(ps@) == v && k == j,
        Err(x) => r matches Err(k) && k == x,
    }
}

/// Whether a parser read the statement that `want` gives.
pub open spec fn parsed_stmt(r: Result<(Stmt, usize), usize>, want: Result<(StmtView, int), int>) -> bool {
    match want {
        Ok((v, j)) => r matches Ok((s, k)) && stmt_view(s) == v && k == j,
        Err(x) => r matches Err(k) && k == x,
    }
}

/// Whether a parser read the statements that `want` gives.
pub open spec fn parsed_stmts(
    r: Result<(Vec<Stmt>, usize), usize>,
    want: Result<(Seq<StmtView>, int), int>,
) -> bool {
    match want {
        Ok((v, j)) => r matches Ok((ss, k)) && stmts_view(ss@) == v && k == j,
        Err(x) => r matches Err(k) && k == x,
    }
}

/// Whether an index that a parser returned lies after `i`, within the tokens.
pub open spec fn onward<T>(r: Result<(T, usize), usize>, i: usize, len: nat) -> bool {
    match r {
        Ok((_, k)) => i < k <= len,
        Err(k) => i <= k <= len,
    }
}

/// The token at `i`, if there is one.
fn peek(tokens: &Vec<Token>, i: usize) -> (r: Option<&Token>)
    ensures
        tokens@.len() <= usize::MAX,
        match at(tokens@, i as int) {
            Some(t) => r == Some(&t) && i < tokens@.len(),
            None => r is None && i >= tokens@.len(),
        },
{
    if i < tokens.len() {
        Some(&tokens[i])
    } else {
        None
    }
}

/// A copy of a pattern.
fn copy_pattern(p: &crate::pattern::Ast) -> (r: crate::pattern::Ast)
    ensures
        ast_view(naming(), r) == ast_view(naming(), *p),
{
    let f = |v: &Var<Ident>| -> (r: Result<Var<Ident>, ()>)
        ensures
            r matches Ok(w) && var_name(w) == var_name(*v),
        {
            match v {
                Var::Local { name } => Ok(Var::Local { name: name.clone() }),
                Var::Global { name } => Ok(Var::Global { name: name.clone() }),
            }
        };
    let copy = p.map(&f);
    proof {
        if copy is Ok {
            group_maps_view(made_by(f), naming(), naming(), p.root, copy->Ok_0.root);
        } else {
            let v = choose|v: Var<Ident>| #[trigger]
                refused_by::<Var<Ident>, Var<Ident>, (), _>(f, v, copy->Err_0);
            assert(false);
        }
    }
    copy.unwrap()
}

/// The expressions that the pieces of an interpolated string stand for.
fn interpolate(items: &Vec<Interp>) -> (r: Vec<Expr>)
    ensures
        exprs_view(r@) == pieces(items@),
{
    let mut out: Vec<Expr> = Vec::new();
    let mut k: usize = 0;
    while k < items.len()
        invariant
            k <= items.len(),
            exprs_view(out@) =~= pieces(items@.take(k as int)),
        decreases items.len() - k,
    {
        let e = match &items[k] {
            Interp::S(s) => Expr::Literal(Literal::Str(s.clone())),
            Interp::V(id) => Expr::Local(id.clone()),
            Interp::G(id) => Expr::Global(id.clone()),
            Interp::C(n) => Expr::Group(*n),
        };
        proof {
            exprs_view_push(out@, e);
            assert(pieces(items@.take(k + 1)) =~= pieces(items@.take(k as int)).push(
                piece(items@[k as int]),
            ));
        }
        out.push(e);
        k = k + 1;
    }
    assert(items@.take(items.len() as int) =~= items@);
    out
}

/// Reads a primary expression: a literal, a variable, a call, a bracketed
/// list, a record or an expression in parentheses.
fn primary(tokens: &Vec<Token>, i: usize) -> (r: Result<(Expr, usize), usize>)
    requires
        i <= tokens@.len(),
    ensures
        parsed_expr(r, primary_at(tokens@, i as int)),
        onward(r, i, tokens@.len()),
    decreases tokens@.len() - i, 0int,
{
    let t = match peek(tokens, i) {
        Some(t) => t,
        None => {
            return Err(i);
        },
    };
    match t {
        Token::INT(n) => Ok((Expr::Literal(Literal::Int(*n)), i + 1)),
        Token::STR(items) => Ok((Expr::Str(interpolate(items)), i + 1)),
        Token::SYM(id) => Ok((Expr::Literal(Literal::Ident(id.clone())), i + 1)),
        Token::PAT(p) => Ok((Expr::Literal(Literal::Pattern(copy_pattern(p))), i + 1)),
        Token::VAR(id) => Ok((Expr::Local(id.clone()), i + 1)),
        Token::GLOBAL(id) => Ok((Expr::Global(id.clone()), i + 1)),
        Token::GROUP(n) => Ok((Expr::Group(*n), i + 1)),
        Token::LPAR => {
            match peek(tokens, i + 1) {
                Some(Token::RPAR) => {
                    return Ok((Expr::Literal(Literal::Nil), i + 2));
                },
                _ => {},
            }
            let (e, j) = match expr(tokens, i + 1) {
                Ok(found) => found,
                Err(k) => {
                    return Err(k);
                },
            };
            match peek(tokens, j) {
                Some(Token::RPAR) => Ok((Expr::Parens(Box::new(e)), j + 1)),
                _ => Err(j),
            }
        },
        Token::NEARWORD(name) => {
            match peek(tokens, i + 1) {
                Some(Token::LPAR) => {},
                _ => {
                    return Err(i + 1);
                },
            }
            match args(tokens, i + 2, false) {
                Ok((args, j)) => Ok((Expr::Call { name: name.clone(), args }, j)),
                Err(k) => Err(k),
            }
        },
        Token::LSQB => match args(tokens, i + 1, true) {
            Ok((items, j)) => Ok((Expr::List(items), j)),
            Err(k) => Err(k),
        },
        Token::LCBR => match pairs(tokens, i + 1) {
            Ok((pairs, j)) => Ok((Expr::Record(pairs), j)),
            Err(k) => Err(k),
        },
        _ => Err(i),
    }
}

/// Whether the token at `i` closes a list of arguments (`)`) or of items (`]`).
fn closing(tokens: &Vec<Token>, i: usize, square: bool) -> (r: bool)
    ensures
        r == closes(at(tokens@, i as int), square),
        r ==> i < tokens@.len(),
        tokens@.len() <= usize::MAX,
{
    match peek(tokens, i) {
        Some(Token::RSQB) => square,
        Some(Token::RPAR) => !square,
        _ => false,
    }
}

#[verifier::loop_isolation(false)]
fn args(tokens: &Vec<Token>, i: usize, square: bool) -> (r: Result<(Vec<Expr>, usize), usize>)
    requires
        i <= tokens@.len(),
    ensures
        parsed_exprs(r, args_at(tokens@, i as int, square)),
        onward(r, i, tokens@.len()),
    decreases tokens@.len() - i, 22int,
{
    let mut out: Vec<Expr> = Vec::new();
    if closing(tokens, i, square) {
        return Ok((out, i + 1));
    }
    let mut j: usize = i;
    loop
        invariant
            i <= j <= tokens@.len(),
            args_at(tokens@, i as int, square) == args_more(
                tokens@,
                j as int,
                square,
                exprs_view(out@),
            ),
        decreases tokens@.len() - j,
    {
        let (e, k) = match expr(tokens, j) {
            Ok(found) => found,
            Err(k) => {
                return Err(k);
            },
        };
        proof {
            exprs_view_push(out@, e);
        }
        out.push(e);
        if closing(tokens, k, square) {
            return Ok((out, k + 1));
        }
        match peek(tokens, k) {
            Some(Token::COMMA) => {},
            _ => {
                return Err(k);
            },
        }
        j = k + 1;
    }
}

#[verifier::loop_isolation(false)]
fn pairs(tokens: &Vec<Token>, i: usize) -> (r: Result<(Vec<(Ident, Expr)>, usize), usize>)
    requires
        i <= tokens@.len(),
    ensures
        parsed_pairs(r, pairs_at(tokens@, i as int)),
        onward(r, i, tokens@.len()),
    decreases tokens@.len() - i, 22int,
{
    let mut out: Vec<(Ident, Expr)> = Vec::new();
    match peek(tokens, i) {
        Some(Token::RCBR) => {
            return Ok((out, i + 1));
        },
        _ => {},
    }
    let mut j: usize = i;
    loop
        invariant
            i <= j <= tokens@.len(),
            pairs_at(tokens@, i as int) == pairs_more(tokens@, j as int, pairs_view(out@)),
        decreases tokens@.len() - j,
    {
        let key = match peek(tokens, j) {
            Some(Token::FARWORD(key)) => key.clone(),
            _ => {
                return Err(j);
            },
        };
        match peek(tokens, j + 1) {
            Some(Token::COLON) => {},
            _ => {
                return Err(j + 1);
            },
        }
        let (e, k) = match expr(tokens, j + 2) {
            Ok(found) => found,
            Err(k) => {
                return Err(k);
            },
        };
        proof {
            pairs_view_push(out@, key, e);
        }
        out.push((key, e));
        match peek(tokens, k) {
            Some(Token::RCBR) => {
                return Ok((out, k + 1));
            },
            Some(Token::COMMA) => {},
            _ => {
                return Err(k);
            },
        }
        j = k + 1;
    }
}

#[verifier::loop_isolation(false)]
fn postfix(tokens: &Vec<Token>, i: usize) -> (r: Result<(Expr, usize), usize>)
    requires
        i <= tokens@.len(),
    ensures
        parsed_expr(r, postfix_at(tokens@, i as int)),
        onward(r, i, tokens@.len()),
    decreases tokens@.len() - i, 2int,
{
    let (mut lhs, mut j) = match primary(tokens, i) {
        Ok(found) => found,
        Err(k) => {
            return Err(k);
        },
    };
    loop
        invariant
            i < j <= tokens@.len(),
            postfix_at(tokens@, i as int) == postfix_more(tokens@, j as int, expr_view(lhs)),
        decreases tokens@.len() - j,
    {
        match peek(tokens, j) {
            Some(Token::LSQB) => {},
            _ => {
                return Ok((lhs, j));
            },
        }
        let (idx, k) = match expr(tokens, j + 1) {
            Ok(found) => found,
            Err(k) => {
                return Err(k);
            },
        };
        match peek(tokens, k) {
            Some(Token::RSQB) => {},
            _ => {
                return Err(k);
            },
        }
        lhs = Expr::Binop { lhs: Box::new(lhs), op: Binop::Idx, rhs: Box::new(idx) };
        j = k + 1;
    }
}

#[verifier::loop_isolation(false)]
fn product(tokens: &Vec<Token>, i: usize) -> (r: Result<(Expr, usize), usize>)
    requires
        i <= tokens@.len(),
    ensures
        parsed_expr(r, mul_at(tokens@, i as int)),
        onward(r, i, tokens@.len()),
    decreases tokens@.len() - i, 4int,
{
    let (mut lhs, mut j) = match postfix(tokens, i) {
        Ok(found) => found,
        Err(k) => {
            return Err(k);
        },
    };
    loop
        invariant
            i < j <= tokens@.len(),
            mul_at(tokens@, i as int) == mul_more(tokens@, j as int, expr_view(lhs)),
        decreases tokens@.len() - j,
    {
        let op = match peek(tokens, j) {
            Some(Token::MUL) => Binop::Mul,
            Some(Token::DIV) => Binop::Div,
            _ => {
                return Ok((lhs, j));
            },
        };
        let (rhs, k) = match postfix(tokens, j + 1) {
            Ok(found) => found,
            Err(k) => {
                return Err(k);
            },
        };
        lhs = Expr::Binop { lhs: Box::new(lhs), op, rhs: Box::new(rhs) };
        j = k;
    }
}

#[verifier::loop_isolation(false)]
fn sum(tokens: &Vec<Token>, i: usize) -> (r: Result<(Expr, usize), usize>)
    requires
        i <= tokens@.len(),
    ensures
        parsed_expr(r, add_at(tokens@, i as int)),
        onward(r, i, tokens@.len()),
    decreases tokens@.len() - i, 6int,
{
    let (mut lhs, mut j) = match product(tokens, i) {
        Ok(found) => found,
        Err(k) => {
            return Err(k);
        },
    };
    loop
        invariant
            i < j <= tokens@.len(),
            add_at(tokens@, i as int) == add_more(tokens@, j as int, expr_view(lhs)),
        decreases tokens@.len() - j,
    {
        let op = match peek(tokens, j) {
            Some(Token::ADD) => Binop::Add,
            Some(Token::SUB) => Binop::Sub,
            _ => {
                return Ok((lhs, j));
            },
        };
        let (rhs, k) = match product(tokens, j + 1) {
            Ok(found) => found,
            Err(k) => {
                return Err(k);
            },
        };
        lhs = Expr::Binop { lhs: Box::new(lhs), op, rhs: Box::new(rhs) };
        j = k;
    }
}

#[verifier::loop_isolation(false)]
fn compare(tokens: &Vec<Token>, i: usize) -> (r: Result<(Expr, usize), usize>)
    requires
        i <= tokens@.len(),
    ensures
        parsed_expr(r, rel_at(tokens@, i as int)),
        onward(r, i, tokens@.len()),
    decreases tokens@.len() - i, 8int,
{
    let (mut lhs, mut j) = match sum(tokens, i) {
        Ok(found) => found,
        Err(k) => {
            return Err(k);
        },
    };
    loop
        invariant
            i < j <= tokens@.len(),
            rel_at(tokens@, i as int) == rel_more(tokens@, j as int, expr_view(lhs)),
        decreases tokens@.len() - j,
    {
        let op = match peek(tokens, j) {
            Some(Token::EQ) => Binop::Equal,
            Some(Token::NE) => Binop::NotEqual,
            Some(Token::MATCH) => Binop::Match,
            _ => {
                return Ok((lhs, j));
            },
        };
        let (rhs, k) = match sum(tokens, j + 1) {
            Ok(found) => found,
            Err(k) => {
                return Err(k);
            },
        };
        lhs = Expr::Binop { lhs: Box::new(lhs), op, rhs: Box::new(rhs) };
        j = k;
    }
}

/// Reads an expression under any number of `not`.
fn negation(tokens: &Vec<Token>, i: usize) -> (r: Result<(Expr, usize), usize>)
    requires
        i <= tokens@.len(),
    ensures
        parsed_expr(r, not_at(tokens@, i as int)),
        onward(r, i, tokens@.len()),
    decreases tokens@.len() - i, 9int,
{
    match peek(tokens, i) {
        Some(Token::NOT) => match negation(tokens, i + 1) {
            Ok((e, j)) => Ok((Expr::Not(Box::new(e)), j)),
            Err(k) => Err(k),
        },
        _ => compare(tokens, i),
    }
}

#[verifier::loop_isolation(false)]
fn conjunction(tokens: &Vec<Token>, i: usize) -> (r: Result<(Expr, usize), usize>)
    requires
        i <= tokens@.len(),
    ensures
        parsed_expr(r, and_at(tokens@, i as int)),
        onward(r, i, tokens@.len()),
    decreases tokens@.len() - i, 11int,
{
    let (mut lhs, mut j) = match negation(tokens, i) {
        Ok(found) => found,
        Err(k) => {
            return Err(k);
        },
    };
    loop
        invariant
            i < j <= tokens@.len(),
            and_at(tokens@, i as int) == and_more(tokens@, j as int, expr_view(lhs)),
        decreases tokens@.len() - j,
    {
        match peek(tokens, j) {
            Some(Token::AND) => {},
            _ => {
                return Ok((lhs, j));
            },
        }
        let (rhs, k) = match negation(tokens, j + 1) {
            Ok(found) => found,
            Err(k) => {
                return Err(k);
            },
        };
        lhs = Expr::And { lhs: Box::new(lhs), rhs: Box::new(rhs) };
        j = k;
    }
}

/// Parses an expression that starts at token `i`.
#[verifier::loop_isolation(false)]
pub fn expr(tokens: &Vec<Token>, i: usize) -> (r: Result<(Expr, usize), usize>)
    requires
        i <= tokens@.len(),
    ensures
        parsed_expr(r, expr_at(tokens@, i as int)),
        onward(r, i, tokens@.len()),
    decreases tokens@.len() - i, 13int,
{
    let (mut lhs, mut j) = match conjunction(tokens, i) {
        Ok(found) => found,
        Err(k) => {
            return Err(k);
        },
    };
    loop
        invariant
            i < j <= tokens@.len(),
            expr_at(tokens@, i as int) == or_more(tokens@, j as int, expr_view(lhs)),
        decreases tokens@.len() - j,
    {
        match peek(tokens, j) {
            Some(Token::OR) => {},
            _ => {
                return Ok((lhs, j));
            },
        }
        let (rhs, k) = match conjunction(tokens, j + 1) {
            Ok(found) => found,
            Err(k) => {
                return Err(k);
            },
        };
        lhs = Expr::Or { lhs: Box::new(lhs), rhs: Box::new(rhs) };
        j = k;
    }
}

/// Reads an expression and the `;` that ends it.
fn finish(tokens: &Vec<Token>, i: usize) -> (r: Result<(Expr, usize), usize>)
    requires
        i <= tokens@.len(),
    ensures
        parsed_expr(r, ended(tokens@, i as int)),
        onward(r, i, tokens@.len()),
    decreases tokens@.len() - i, 14int,
{
    let (e, j) = match expr(tokens, i) {
        Ok(found) => found,
        Err(k) => {
            return Err(k);
        },
    };
    match peek(tokens, j) {
        Some(Token::EOL) => Ok((e, j + 1)),
        _ => Err(j),
    }
}

/// Parses a statement that starts at token `i`.
pub fn stmt(tokens: &Vec<Token>, i: usize) -> (r: Result<(Stmt, usize), usize>)
    requires
        i <= tokens@.len(),
    ensures
        parsed_stmt(r, stmt_at(tokens@, i as int)),
        onward(r, i, tokens@.len()),
    decreases tokens@.len() - i, 30int,
{
    let t = match peek(tokens, i) {
        Some(t) => t,
        None => {
            return Err(i);
        },
    };
    match t {
        Token::LET => {
            let lhs = match peek(tokens, i + 1) {
                Some(Token::VAR(id)) => id.clone(),
                _ => {
                    return Err(i + 1);
                },
            };
            match peek(tokens, i + 2) {
                Some(Token::EQUAL) => match finish(tokens, i + 3) {
                    Ok((e, j)) => Ok((Stmt::My { lhs, rhs: Some(e) }, j)),
                    Err(k) => Err(k),
                },
                Some(Token::EOL) => Ok((Stmt::My { lhs, rhs: None }, i + 3)),
                _ => Err(i + 2),
            }
        },
        Token::RETURN => {
            match peek(tokens, i + 1) {
                Some(Token::EOL) => {
                    return Ok((Stmt::Return { rhs: None }, i + 2));
                },
                _ => {},
            }
            match finish(tokens, i + 1) {
                Ok((e, j)) => Ok((Stmt::Return { rhs: Some(e) }, j)),
                Err(k) => Err(k),
            }
        },
        Token::ASSERT => match finish(tokens, i + 1) {
            Ok((e, j)) => Ok((Stmt::Assert { rhs: e }, j)),
            Err(k) => Err(k),
        },
        Token::IF => {
            let (test, j) = match expr(tokens, i + 1) {
                Ok(found) => found,
                Err(k) => {
                    return Err(k);
                },
            };
            let (body, k) = match block(tokens, j) {
                Ok(found) => found,
                Err(k) => {
                    return Err(k);
                },
            };
            let mut clauses: Vec<(Expr, Vec<Stmt>)> = Vec::new();
            proof {
                clauses_view_push(clauses@, test, body);
                assert(clauses_view(clauses@) =~= Seq::<(ExprView, Seq<StmtView>)>::empty());
                assert(Seq::<(ExprView, Seq<StmtView>)>::empty().push(
                    (expr_view(test), stmts_view(body@)),
                ) =~= seq![(expr_view(test), stmts_view(body@))]);
            }
            clauses.push((test, body));
            otherwise(tokens, k, clauses)
        },
        Token::WHILE => {
            let (test, j) = match expr(tokens, i + 1) {
                Ok(found) => found,
                Err(k) => {
                    return Err(k);
                },
            };
            match block(tokens, j) {
                Ok((body, k)) => Ok((Stmt::While { test, body }, k)),
                Err(k) => Err(k),
            }
        },
        Token::EOL => Ok((Stmt::Nop, i + 1)),
        _ => {
            let (lhs, j) = match expr(tokens, i) {
                Ok(found) => found,
                Err(k) => {
                    return Err(k);
                },
            };
            match peek(tokens, j) {
                Some(Token::EQUAL) => match finish(tokens, j + 1) {
                    Ok((rhs, k)) => Ok((Stmt::Assign { lhs, rhs }, k)),
                    Err(k) => Err(k),
                },
                Some(Token::EOL) => Ok((Stmt::Bare { rhs: lhs }, j + 1)),
                _ => Err(j),
            }
        },
    }
}

#[verifier::loop_isolation(false)]
fn otherwise(tokens: &Vec<Token>, i: usize, clauses: Vec<(Expr, Vec<Stmt>)>) -> (r: Result<
    (Stmt, usize),
    usize,
>)
    requires
        i <= tokens@.len(),
    ensures
        parsed_stmt(r, else_at(tokens@, i as int, clauses_view(clauses@))),
        match r {
            Ok((_, k)) => i <= k <= tokens@.len(),
            Err(k) => i <= k <= tokens@.len(),
        },
    decreases tokens@.len() - i, 29int,
{
    let ghost first = clauses_view(clauses@);
    let mut clauses = clauses;
    let mut j: usize = i;
    loop
        invariant
            i <= j <= tokens@.len(),
            else_at(tokens@, i as int, first) == else_at(
                tokens@,
                j as int,
                clauses_view(clauses@),
            ),
        decreases tokens@.len() - j,
    {
        match peek(tokens, j) {
            Some(Token::ELSE) => {},
            _ => {
                proof {
                    assert(stmts_view(Seq::<Stmt>::empty()) =~= Seq::<StmtView>::empty());
                }
                return Ok((Stmt::If { clauses, last: Vec::new() }, j));
            },
        }
        match peek(tokens, j + 1) {
            Some(Token::IF) => {},
            _ => {
                return match block(tokens, j + 1) {
                    Ok((last, k)) => Ok((Stmt::If { clauses, last }, k)),
                    Err(k) => Err(k),
                };
            },
        }
        let (test, k) = match expr(tokens, j + 2) {
            Ok(found) => found,
            Err(k) => {
                return Err(k);
            },
        };
        let (body, m) = match block(tokens, k) {
            Ok(found) => found,
            Err(k) => {
                return Err(k);
            },
        };
        proof {
            clauses_view_push(clauses@, test, body);
        }
        clauses.push((test, body));
        j = m;
    }
}

/// Parses a block, statements in braces, that starts at token `i`.
#[verifier::loop_isolation(false)]
pub fn block(tokens: &Vec<Token>, i: usize) -> (r: Result<(Vec<Stmt>, usize), usize>)
    requires
        i <= tokens@.len(),
    ensures
        parsed_stmts(r, block_at(tokens@, i as int)),
        onward(r, i, tokens@.len()),
    decreases tokens@.len() - i, 32int,
{
    match peek(tokens, i) {
        Some(Token::LCBR) => {},
        _ => {
            return Err(i);
        },
    }
    let mut out: Vec<Stmt> = Vec::new();
    let mut j: usize = i + 1;
    proof {
        assert(stmts_view(out@) =~= Seq::<StmtView>::empty());
    }
    loop
        invariant
            i < j <= tokens@.len(),
            block_at(tokens@, i as int) == block_more(tokens@, j as int, stmts_view(out@)),
        decreases tokens@.len() - j,
    {
        match peek(tokens, j) {
            Some(Token::RCBR) => {
                return Ok((out, j + 1));
            },
            _ => {},
        }
        let (s, k) = match stmt(tokens, j) {
            Ok(found) => found,
            Err(k) => {
                return Err(k);
            },
        };
        proof {
            stmts_view_push(out@, s);
        }
        out.push(s);
        j = k;
    }
}

/// Parses statements from token `i` up to the end of the tokens.
#[verifier::loop_isolation(false)]
pub fn statements(tokens: &Vec<Token>, i: usize) -> (r: Result<Vec<Stmt>, usize>)
    requires
        i <= tokens@.len(),
    ensures
        match statements_at(tokens@, i as int, Seq::empty()) {
            Ok(v) => r matches Ok(ss) && stmts_view(ss@) == v,
            Err(x) => r matches Err(k) && k == x,
        },
        r matches Err(k) ==> k <= tokens@.len(),
{
    let mut out: Vec<Stmt> = Vec::new();
    let mut j: usize = i;
    proof {
        assert(stmts_view(out@) =~= Seq::<StmtView>::empty());
    }
    loop
        invariant
            i <= j <= tokens@.len(),
            statements_at(tokens@, i as int, Seq::empty()) == statements_at(
                tokens@,
                j as int,
                stmts_view(out@),
            ),
        decreases tokens@.len() - j,
    {
        if peek(tokens, j).is_none() {
            return Ok(out);
        }
        let (s, k) = match stmt(tokens, j) {
            Ok(found) => found,
            Err(k) => {
                return Err(k);
            },
        };
        proof {
            stmts_view_push(out@, s);
        }
        out.push(s);
        j = k;
    }
}

#[verifier::loop_isolation(false)]
fn params(tokens: &Vec<Token>, i: usize) -> (r: Result<(Vec<Ident>, usize), usize>)
    requires
        i <= tokens@.len(),
    ensures
        match params_at(tokens@, i as int) {
            Ok((v, j)) => r matches Ok((ps, k)) && v == Seq::new(ps@.len(), |n: int| ps@[n]@) && k
                == j,
            Err(x) => r matches Err(k) && k == x,
        },
        onward(r, i, tokens@.len()),
{
    let mut out: Vec<Ident> = Vec::new();
    match peek(tokens, i) {
        Some(Token::RPAR) => {
            assert(Seq::new(out@.len(), |n: int| out@[n]@) =~= Seq::<Seq<char>>::empty());
            return Ok((out, i + 1));
        },
        _ => {},
    }
    let mut j: usize = i;
    proof {
        assert(Seq::new(out@.len(), |n: int| out@[n]@) =~= Seq::<Seq<char>>::empty());
    }
    loop
        invariant
            i <= j <= tokens@.len(),
            params_at(tokens@, i as int) == params_more(
                tokens@,
                j as int,
                Seq::new(out@.len(), |n: int| out@[n]@),
            ),
        decreases tokens@.len() - j,
    {
        let ghost before = Seq::new(out@.len(), |n: int| out@[n]@);
        let id = match peek(tokens, j) {
            Some(Token::VAR(id)) => id.clone(),
            _ => {
                return Err(j);
            },
        };
        out.push(id);
        assert(Seq::new(out@.len(), |n: int| out@[n]@) =~= before.push(id@));
        match peek(tokens, j + 1) {
            Some(Token::RPAR) => {
                return Ok((out, j + 2));
            },
            Some(Token::COMMA) => {},
            _ => {
                return Err(j + 1);
            },
        }
        j = j + 2;
    }
}

/// Parses a function definition that starts at token `i`.
pub fn def(tokens: &Vec<Token>, i: usize) -> (r: Result<(Def, usize), usize>)
    requires
        i <= tokens@.len(),
    ensures
        match def_at(tokens@, i as int) {
            Ok((v, j)) => r matches Ok((d, k)) && def_view(d) == v && k == j,
            Err(x) => r matches Err(k) && k == x,
        },
        onward(r, i, tokens@.len()),
{
    match peek(tokens, i) {
        Some(Token::DEF) => {},
        _ => {
            return Err(i);
        },
    }
    let name = match peek(tokens, i + 1) {
        Some(Token::NEARWORD(name)) => name.clone(),
        _ => {
            return Err(i + 1);
        },
    };
    match peek(tokens, i + 2) {
        Some(Token::LPAR) => {},
        _ => {
            return Err(i + 2);
        },
    }
    let (args, j) = match params(tokens, i + 3) {
        Ok(found) => found,
        Err(k) => {
            return Err(k);
        },
    };
    match block(tokens, j) {
        Ok((body, k)) => Ok((Def { name, args: Args(args), body }, k)),
        Err(k) => Err(k),
    }
}

/// The value of a source file in the making.
pub open spec fn parts_view(begin: Seq<Stmt>, defs: Seq<Def>) -> SourceView {
    SourceView { begin: stmts_view(begin), defs: Seq::new(defs.len(), |i: int| def_view(defs[i])) }
}

proof fn stmts_view_append(a: Seq<Stmt>, b: Seq<Stmt>)
    ensures
        stmts_view(a + b) == stmts_view(a) + stmts_view(b),
    decreases b.len(),
{
    if b.len() == 0 {
        assert(a + b =~= a);
        assert(stmts_view(a) + stmts_view(b) =~= stmts_view(a));
    } else {
        stmts_view_append(a, b.drop_last());
        assert((a + b).drop_last() =~= a + b.drop_last());
        assert((a + b).last() == b.last());
        assert(stmts_view(a) + stmts_view(b) =~= (stmts_view(a) + stmts_view(b.drop_last())).push(
            stmt_view(b.last()),
        ));
    }
}

/// Adds a definition to those read so far.
fn add_def(defs: &mut Vec<Def>, begin: &Vec<Stmt>, d: Def)
    ensures
        parts_view(begin@, final(defs)@) == (SourceView {
            begin: parts_view(begin@, old(defs)@).begin,
            defs: parts_view(begin@, old(defs)@).defs.push(def_view(d)),
        }),
{
    defs.push(d);
    assert(parts_view(begin@, defs@).defs =~= parts_view(begin@, old(defs)@).defs.push(def_view(d)));
}

/// Appends the statements of a `BEGIN` block to those read so far.
fn add_begin(begin: &mut Vec<Stmt>, defs: &Vec<Def>, body: Vec<Stmt>)
    ensures
        parts_view(final(begin)@, defs@) == (SourceView {
            begin: parts_view(old(begin)@, defs@).begin + stmts_view(body@),
            defs: parts_view(old(begin)@, defs@).defs,
        }),
{
    let mut body = body;
    proof {
        stmts_view_append(begin@, body@);
    }
    begin.append(&mut body);
}

/// Whether the token is the bare word `BEGIN`.
fn is_begin(t: &Token) -> (r: bool)
    ensures
        r == (t matches Token::FARWORD(word) && word@ == "BEGIN"@),
{
    match t {
        Token::FARWORD(word) => same_text(word.as_str(), "BEGIN"),
        _ => false,
    }
}

proof fn module_at_def(ts: Seq<Token>, i: int, m: SourceView)
    requires
        at(ts, i) matches Some(Token::DEF),
    ensures
        module_at(ts, i, m) == (match def_at(ts, i) {
            Ok((def, j)) => if i < j <= ts.len() {
                module_at(ts, j, SourceView { begin: m.begin, defs: m.defs.push(def) })
            } else {
                Err(j)
            },
            Err(k) => Err(k),
        }),
{
    reveal(module_at);
}

proof fn module_at_begin(ts: Seq<Token>, i: int, m: SourceView)
    requires
        at(ts, i) matches Some(Token::FARWORD(word)) && word@ == "BEGIN"@,
    ensures
        module_at(ts, i, m) == (match block_at(ts, i + 1) {
            Ok((body, j)) => if i < j <= ts.len() {
                module_at(ts, j, SourceView { begin: m.begin + body, defs: m.defs })
            } else {
                Err(j)
            },
            Err(k) => Err(k),
        }),
{
    reveal(module_at);
}

proof fn module_at_other(ts: Seq<Token>, i: int, m: SourceView)
    requires
        at(ts, i) is Some,
        !(at(ts, i) matches Some(Token::DEF)),
        !(at(ts, i) matches Some(Token::FARWORD(word)) && word@ == "BEGIN"@),
    ensures
        module_at(ts, i, m) == Err::<SourceView, int>(i),
{
    reveal(module_at);
}

proof fn module_at_end(ts: Seq<Token>, i: int, m: SourceView)
    requires
        at(ts, i) is None,
    ensures
        module_at(ts, i, m) == Ok::<SourceView, int>(m),
{
    reveal(module_at);
}

/// A function definition at token `j` of a source file.
fn item_def(tokens: &Vec<Token>, j: usize, begin: &Vec<Stmt>, defs: &mut Vec<Def>) -> (r: Result<
    usize,
    usize,
>)
    requires
        j < tokens@.len(),
        tokens@[j as int] is DEF,
    ensures
        match r {
            Ok(k) => j < k <= tokens@.len() && module_at(
                tokens@,
                j as int,
                parts_view(begin@, old(defs)@),
            ) == module_at(tokens@, k as int, parts_view(begin@, final(defs)@)),
            Err(k) => k <= tokens@.len() && module_at(
                tokens@,
                j as int,
                parts_view(begin@, old(defs)@),
            ) == Err::<SourceView, int>(k as int),
        },
{
    proof {
        module_at_def(tokens@, j as int, parts_view(begin@, defs@));
    }
    let (d, k) = match def(tokens, j) {
        Ok(found) => found,
        Err(k) => {
            return Err(k);
        },
    };
    add_def(defs, begin, d);
    Ok(k)
}

/// A `BEGIN` block at token `j` of a source file.
fn item_begin(tokens: &Vec<Token>, j: usize, begin: &mut Vec<Stmt>, defs: &Vec<Def>) -> (r: Result<
    usize,
    usize,
>)
    requires
        j < tokens@.len(),
        tokens@[j as int] matches Token::FARWORD(word) && word@ == "BEGIN"@,
    ensures
        match r {
            Ok(k) => j < k <= tokens@.len() && module_at(
                tokens@,
                j as int,
                parts_view(old(begin)@, defs@),
            ) == module_at(tokens@, k as int, parts_view(final(begin)@, defs@)),
            Err(k) => k <= tokens@.len() && module_at(
                tokens@,
                j as int,
                parts_view(old(begin)@, defs@),
            ) == Err::<SourceView, int>(k as int),
        },
{
    proof {
        module_at_begin(tokens@, j as int, parts_view(begin@, defs@));
    }
    let len = tokens.len();
    assert(j < len);
    let (body, k) = match block(tokens, j + 1) {
        Ok(found) => found,
        Err(k) => {
            return Err(k);
        },
    };
    add_begin(begin, defs, body);
    Ok(k)
}

/// Whether the token starts a function definition.
fn is_def(t: &Token) -> (r: bool)
    ensures
        r == (t is DEF),
{
    match t {
        Token::DEF => true,
        _ => false,
    }
}

/// Parses a source file: function definitions and `BEGIN` blocks up to
/// the end of the tokens.
pub fn module(tokens: &Vec<Token>) -> (r: Result<Module, usize>)
    ensures
        match module_at(
            tokens@,
            0,
            SourceView { begin: Seq::empty(), defs: Seq::empty() },
        ) {
            Ok(v) => r matches Ok(m) && crate::ast::source_view(m) == v,
            Err(x) => r matches Err(k) && k == x,
        },
        r matches Err(k) ==> k <= tokens@.len(),
{
    let mut begin: Vec<Stmt> = Vec::new();
    let mut defs: Vec<Def> = Vec::new();
    let mut j: usize = 0;
    let ghost whole = module_at(tokens@, 0, SourceView { begin: Seq::empty(), defs: Seq::empty() });
    proof {
        assert(parts_view(begin@, defs@).begin =~= Seq::<StmtView>::empty());
        assert(parts_view(begin@, defs@).defs =~= Seq::<DefView>::empty());
    }
    while j < tokens.len()
        invariant
            j <= tokens@.len(),
            whole == module_at(tokens@, 0, SourceView { begin: Seq::empty(), defs: Seq::empty() }),
            whole == module_at(tokens@, j as int, parts_view(begin@, defs@)),
        decreases tokens@.len() - j,
    {
        let step = if is_def(&tokens[j]) {
            item_def(tokens, j, &begin, &mut defs)
        } else if is_begin(&tokens[j]) {
            item_begin(tokens, j, &mut begin, &defs)
        } else {
            proof {
                module_at_other(tokens@, j as int, parts_view(begin@, defs@));
            }
            Err(j)
        };
        match step {
            Ok(k) => {
                j = k;
            },
            Err(k) => {
                return Err(k);
            },
        }
    }
    proof {
        module_at_end(tokens@, j as int, parts_view(begin@, defs@));
    }
    Ok(Module { begin, defs })
}

/// The tokens of a source with the offsets in bytes from which the lexer
/// read them, and the offset of the end of the source.
pub struct Tokens {
    pub tokens: Vec<Token>,
    pub starts: Vec<usize>,
    pub end: usize,
}

/// The offsets as integers.
pub open spec fn offsets(starts: Seq<usize>) -> Seq<int> {
    Seq::new(starts.len(), |i: int| starts[i] as int)
}

/// The offsets in bytes of the code points at the given indices.
pub open spec fn in_bytes(src: Seq<char>, indices: Seq<int>) -> Seq<int> {
    Seq::new(indices.len(), |i: int| byte_offset(src, indices[i]))
}

/// Whether `t` holds the tokens that the lexer reads from `pos` on, in a
/// source that has only tokens, with the offsets in bytes from which it
/// reads them, and the length of the source in bytes.
pub open spec fn read_from(t: Tokens, src: Seq<char>, pos: int) -> bool {
    &&& lex_all(src, pos) matches Ok(views) && tokens_view(t.tokens@) =~= views
    &&& offsets(t.starts@) =~= in_bytes(src, lex_starts(src, pos))
    &&& t.starts@.len() == t.tokens@.len()
    &&& t.end == byte_offset(src, src.len() as int)
}

/// The error for the token at index `k` that is out of place. A `sub` in a
/// body is a nested function; every other token is a syntax error at the
/// offset from which the lexer read the token, or at the end of the source
/// where the tokens have run out.
pub open spec fn misplaced_at(t: Tokens, k: int, in_body: bool) -> Error {
    if in_body && 0 <= k < t.tokens@.len() && t.tokens@[k] is DEF {
        Error::NonStaticFunction
    } else if 0 <= k < t.starts@.len() {
        Error::Syntax { at: t.starts@[k] }
    } else {
        Error::Syntax { at: t.end }
    }
}

impl Tokens {
    /// Reads all the tokens that are left, with the offsets from which the
    /// lexer read them. An error of the lexer is handed on.
    pub fn read(spanned: Spanned) -> (r: Result<Tokens, Error>)
        ensures
            match lex_all(spanned.inner.source(), spanned.inner.position()) {
                Ok(views) => r matches Ok(t) && read_from(
                    t,
                    spanned.inner.source(),
                    spanned.inner.position(),
                ),
                Err(f) => r matches Err(e) && lex_reports(e, f),
            },
    {
        let mut this = spanned;
        let mut tokens: Vec<Token> = Vec::new();
        let mut starts: Vec<usize> = Vec::new();
        let ghost src = spanned.inner.source();
        let ghost from = spanned.inner.position();
        let ghost begun: Seq<int> = Seq::empty();
        proof {
            this.inner.position_bounds();
            assert(tokens_view(tokens@) + Seq::<TokenView>::empty() =~= Seq::<TokenView>::empty());
            assert(begun + lex_starts(src, from) =~= lex_starts(src, from));
        }
        loop
            invariant
                this.inner.source() == src,
                src == spanned.inner.source(),
                from == spanned.inner.position(),
                0 <= this.inner.position() <= src.len(),
                starts@.len() == tokens@.len(),
                lex_all(src, from) == crate::token::following(
                    tokens_view(tokens@),
                    lex_all(src, this.inner.position()),
                ),
                lex_starts(src, from) == begun + lex_starts(src, this.inner.position()),
                offsets(starts@) =~= in_bytes(src, begun),
            decreases src.len() - this.inner.position(),
        {
            let ghost read = tokens_view(tokens@);
            let ghost before = begun;
            let ghost here = this.inner.position();
            proof {
                lex_progress(src, here);
            }
            match this.next() {
                Some(Ok((left, token, right))) => {
                    tokens.push(token);
                    starts.push(left);
                    proof {
                        this.inner.position_bounds();
                        assert(tokens_view(tokens@) =~= read.push(token_view(token)));
                        begun = before.push(here);
                        assert(left == byte_offset(src, here));
                        assert(offsets(starts@.drop_last()) =~= in_bytes(src, before));
                        assert forall|i: int| 0 <= i < starts@.len() implies offsets(starts@)[i]
                            == in_bytes(src, begun)[i] by {
                            if i < before.len() {
                                assert(offsets(starts@.drop_last())[i] == in_bytes(src, before)[i]);
                            }
                        }
                        assert(offsets(starts@) =~= in_bytes(src, begun));
                        assert(before + (seq![here] + lex_starts(src, this.inner.position()))
                            =~= before.push(here) + lex_starts(src, this.inner.position()));
                        match lex_all(src, this.inner.position()) {
                            Ok(rest) => {
                                assert(read + (seq![token_view(token)] + rest) =~= read.push(
                                    token_view(token),
                                ) + rest);
                            },
                            Err(f) => {},
                        }
                    }
                },
                Some(Err(e)) => {
                    return Err(e);
                },
                None => {
                    proof {
                        assert(read + Seq::<TokenView>::empty() =~= read);
                        assert(begun + Seq::<int>::empty() =~= begun);
                        assert(in_bytes(src, begun) =~= in_bytes(src, lex_starts(src, from)));
                    }
                    let end = this.inner.offset();
                    return Ok(Tokens { tokens, starts, end });
                },
            }
        }
    }

    /// The error for the token at index `k` that is out of place.
    pub fn misplaced(&self, k: usize, in_body: bool) -> (e: Error)
        ensures
            e == misplaced_at(*self, k as int, in_body),
    {
        if in_body && k < self.tokens.len() && is_def(&self.tokens[k]) {
            Error::NonStaticFunction
        } else if k < self.starts.len() {
            Error::Syntax { at: self.starts[k] }
        } else {
            Error::Syntax { at: self.end }
        }
    }
}

/// Parses a source file from the tokens of a lexer. An error of the lexer
/// is handed on; a token that is out of place gives a syntax error, and a
/// `sub` in a body gives `NonStaticFunction`.
pub fn parse_module(tokens: Spanned) -> (r: Result<Module, Error>)
    ensures
        match lex_all(tokens.inner.source(), tokens.inner.position()) {
            Ok(views) => exists|t: Tokens|
                #[trigger] read_from(t, tokens.inner.source(), tokens.inner.position())
                    && match module_at(
                    t.tokens@,
                    0,
                    SourceView { begin: Seq::empty(), defs: Seq::empty() },
                ) {
                    Ok(v) => r matches Ok(m) && crate::ast::source_view(m) == v,
                    Err(k) => r == Err::<Module, Error>(misplaced_at(t, k, true)),
                },
            Err(f) => r matches Err(e) && lex_reports(e, f),
        },
{
    let read = match Tokens::read(tokens) {
        Ok(read) => read,
        Err(e) => {
            return Err(e);
        },
    };
    let r = match module(&read.tokens) {
        Ok(m) => Ok(m),
        Err(k) => Err(read.misplaced(k, true)),
    };
    proof {
        assert(read_from(read, tokens.inner.source(), tokens.inner.position()));
    }
    r
}

/// Parses one function definition from the tokens of a lexer, which must
/// hold nothing else.
pub fn parse_def(tokens: Spanned) -> (r: Result<Def, Error>)
    ensures
        match lex_all(tokens.inner.source(), tokens.inner.position()) {
            Ok(views) => exists|t: Tokens|
                #[trigger] read_from(t, tokens.inner.source(), tokens.inner.position())
                    && match def_at(t.tokens@, 0) {
                    Ok((v, j)) => if j == t.tokens@.len() {
                        r matches Ok(d) && def_view(d) == v
                    } else {
                        r == Err::<Def, Error>(misplaced_at(t, j, false))
                    },
                    Err(k) => r == Err::<Def, Error>(misplaced_at(t, k, k > 0)),
                },
            Err(f) => r matches Err(e) && lex_reports(e, f),
        },
{
    let read = match Tokens::read(tokens) {
        Ok(read) => read,
        Err(e) => {
            return Err(e);
        },
    };
    let r = match def(&read.tokens, 0) {
        Ok((d, j)) => {
            if j == read.tokens.len() {
                Ok(d)
            } else {
                Err(read.misplaced(j, false))
            }
        },
        Err(k) => Err(read.misplaced(k, k > 0)),
    };
    proof {
        assert(read_from(read, tokens.inner.source(), tokens.inner.position()));
    }
    r
}

/// Parses statements from the tokens of a lexer, up to their end.
pub fn parse_block_body(tokens: Spanned) -> (r: Result<Vec<Stmt>, Error>)
    ensures
        match lex_all(tokens.inner.source(), tokens.inner.position()) {
            Ok(views) => exists|t: Tokens|
                #[trigger] read_from(t, tokens.inner.source(), tokens.inner.position())
                    && match statements_at(t.tokens@, 0, Seq::empty()) {
                    Ok(v) => r matches Ok(ss) && stmts_view(ss@) == v,
                    Err(k) => r == Err::<Vec<Stmt>, Error>(misplaced_at(t, k, true)),
                },
            Err(f) => r matches Err(e) && lex_reports(e, f),
        },
{
    let read = match Tokens::read(tokens) {
        Ok(read) => read,
        Err(e) => {
            return Err(e);
        },
    };
    let r = match statements(&read.tokens, 0) {
        Ok(ss) => Ok(ss),
        Err(k) => Err(read.misplaced(k, true)),
    };
    proof {
        assert(read_from(read, tokens.inner.source(), tokens.inner.position()));
    }
    r
}

} // verus!

//! The grammar, stated as functions from a token sequence and a cursor to
//! what is parsed there and where the cursor ends, or the first error and the
//! index of the token where it arose (the sequence's length for its end).
//!
//! Whitespace, newline and comment tokens are skipped: every rule starts on a
//! significant token (or the end), and leaves the cursor on the next one.
//!
//! Where a rule goes on from the index that a sub-rule returned, it first
//! checks that the cursor moved forward and stayed in range, which makes
//! termination evident. The check never fails: the contract of each parsing
//! method in `parser` shows that a rule that succeeds has consumed a token.
use crate::ast::{DefView, ExprView, LiteralView, StmtView, TypeView};
use crate::types::{Keyword, Op, TokenTag, TokenTypeView, TokenView, tag_of};
use vstd::prelude::*;

verus! {

/// What a syntax error reports as missing.
#[derive(Debug, Clone, Copy, PartialEq, Eq, Structural)]
pub enum ErrorKind {
    /// Neither `fn`, `let` nor `struct` at the start of a definition.
    ExpectedDefinition,
    /// A token of this kind was required.
    ExpectedToken(TokenTag),
    /// A type was required.
    ExpectedType,
    /// An expression was required.
    ExpectedExpression,
    /// A struct field repeats the name of an earlier one.
    DuplicateField,
}

pub open spec fn is_trivia(t: TokenTag) -> bool {
    t == TokenTag::Whitespace || t == TokenTag::Newline || t == TokenTag::Comment
}

/// Number of trivia tokens in a row from index `i` on.
pub open spec fn trivia_run(ts: Seq<TokenView>, i: int) -> nat
    decreases ts.len() - i,
{
    if 0 <= i < ts.len() && is_trivia(tag_of(ts[i].kind)) {
        1 + trivia_run(ts, i + 1)
    } else {
        0
    }
}

/// The index of the first significant token after the one at `i`, never past
/// the end.
pub open spec fn next(ts: Seq<TokenView>, i: int) -> int {
    let j = i + 1 + trivia_run(ts, i + 1);
    if j <= ts.len() {
        j
    } else {
        ts.len() as int
    }
}

pub open spec fn tag_at(ts: Seq<TokenView>, i: int) -> Option<TokenTag> {
    if 0 <= i < ts.len() {
        Some(tag_of(ts[i].kind))
    } else {
        None
    }
}

/// The cursor went forward from `i` to `j` and stayed in range.
pub open spec fn moved(ts: Seq<TokenView>, i: int, j: int) -> bool {
    i < j <= ts.len()
}

/// A token of kind `tag` at `i`: the cursor moves past it and the trivia
/// after it.
pub open spec fn expect(ts: Seq<TokenView>, i: int, tag: TokenTag) -> Result<int, (ErrorKind, int)> {
    if tag_at(ts, i) == Some(tag) {
        Ok(next(ts, i))
    } else {
        Err((ErrorKind::ExpectedToken(tag), i))
    }
}

/// An identifier at `i`: its text.
pub open spec fn ident_at(ts: Seq<TokenView>, i: int) -> Result<(Seq<char>, int), (ErrorKind, int)> {
    if 0 <= i < ts.len() && ts[i].kind is Identifier {
        Ok((ts[i].kind->Identifier_0, next(ts, i)))
    } else {
        Err((ErrorKind::ExpectedToken(TokenTag::Identifier), i))
    }
}

/// Type := primitive | `struct` Ident | `interface` Ident | `*` Type
pub open spec fn type_at(ts: Seq<TokenView>, i: int) -> Result<(TypeView, int), (ErrorKind, int)>
    decreases ts.len() - i,
{
    match tag_at(ts, i) {
        Some(TokenTag::Keyword(Keyword::Type(p))) => Ok((TypeView::Primitive(p), next(ts, i))),
        Some(TokenTag::Keyword(Keyword::Struct)) => match ident_at(ts, next(ts, i)) {
            Ok((n, j)) => Ok((TypeView::Struct(n), j)),
            Err(e) => Err(e),
        },
        Some(TokenTag::Keyword(Keyword::Interface)) => match ident_at(ts, next(ts, i)) {
            Ok((n, j)) => Ok((TypeView::Interface(n), j)),
            Err(e) => Err(e),
        },
        Some(TokenTag::Operator(Op::Mul)) => match type_at(ts, next(ts, i)) {
            Ok((t, j)) => Ok((TypeView::Pointer(Box::new(t)), j)),
            Err(e) => Err(e),
        },
        _ => Err((ErrorKind::ExpectedType, i)),
    }
}

/// The operators that join two operands; `=` is left to assignment.
pub open spec fn is_binary_op(op: Op) -> bool {
    op != Op::Not && op != Op::Eq
}

/// Expr := Unary (BinOp Unary)*, all operators of one precedence, grouping
/// to the left.
pub open spec fn expr_at(ts: Seq<TokenView>, i: int) -> Result<(ExprView, int), (ErrorKind, int)>
    decreases ts.len() - i, 3nat,
{
    match unary_at(ts, i) {
        Ok((lhs, j)) => if moved(ts, i, j) {
            binary_rest(ts, j, lhs)
        } else {
            Err((ErrorKind::ExpectedExpression, i))
        },
        Err(e) => Err(e),
    }
}

/// The operator-operand pairs that follow `lhs`, folded to the left.
pub open spec fn binary_rest(ts: Seq<TokenView>, i: int, lhs: ExprView) -> Result<
    (ExprView, int),
    (ErrorKind, int),
>
    decreases ts.len() - i, 0nat,
{
    match tag_at(ts, i) {
        Some(TokenTag::Operator(op)) => if is_binary_op(op) {
            match unary_at(ts, next(ts, i)) {
                Ok((rhs, j)) => if moved(ts, i, j) {
                    binary_rest(ts, j, ExprView::BinaryOp(op, Box::new(lhs), Box::new(rhs)))
                } else {
                    Err((ErrorKind::ExpectedExpression, i))
                },
                Err(e) => Err(e),
            }
        } else {
            Ok((lhs, i))
        },
        _ => Ok((lhs, i)),
    }
}

/// Unary := (`!` | `-`) Unary | Primary
pub open spec fn unary_at(ts: Seq<TokenView>, i: int) -> Result<(ExprView, int), (ErrorKind, int)>
    decreases ts.len() - i, 2nat,
{
    match tag_at(ts, i) {
        Some(TokenTag::Operator(op)) => if op == Op::Not || op == Op::Sub {
            match unary_at(ts, next(ts, i)) {
                Ok((e, j)) => Ok((ExprView::UnaryOp(op, Box::new(e)), j)),
                Err(e) => Err(e),
            }
        } else {
            primary_at(ts, i)
        },
        _ => primary_at(ts, i),
    }
}

/// Primary := Number | String | Ident | Ident `(` Args | `(` Expr `)`
pub open spec fn primary_at(ts: Seq<TokenView>, i: int) -> Result<(ExprView, int), (ErrorKind, int)>
    decreases ts.len() - i, 1nat,
{
    if 0 <= i < ts.len() {
        match ts[i].kind {
            TokenTypeView::Number(n) => Ok((ExprView::Literal(LiteralView::Number(n)), next(ts, i))),
            TokenTypeView::StrLiteral(s) => Ok(
                (ExprView::Literal(LiteralView::Str(s)), next(ts, i)),
            ),
            TokenTypeView::Identifier(name) => {
                let j = next(ts, i);
                if tag_at(ts, j) == Some(TokenTag::LeftParen) {
                    match args_at(ts, next(ts, j)) {
                        Ok((args, k)) => Ok((ExprView::Call(name, args), k)),
                        Err(e) => Err(e),
                    }
                } else {
                    Ok((ExprView::Identifier(name), j))
                }
            },
            TokenTypeView::LeftParen => match expr_at(ts, next(ts, i)) {
                Ok((e, j)) => if moved(ts, i, j) {
                    match expect(ts, j, TokenTag::RightParen) {
                        Ok(k) => Ok((e, k)),
                        Err(err) => Err(err),
                    }
                } else {
                    Err((ErrorKind::ExpectedExpression, i))
                },
                Err(e) => Err(e),
            },
            _ => Err((ErrorKind::ExpectedExpression, i)),
        }
    } else {
        Err((ErrorKind::ExpectedExpression, i))
    }
}

/// Args := `)` | Expr `)` | Expr `,` Args
pub open spec fn args_at(ts: Seq<TokenView>, i: int) -> Result<(Seq<ExprView>, int), (ErrorKind, int)>
    decreases ts.len() - i, 4nat,
{
    if tag_at(ts, i) == Some(TokenTag::RightParen) {
        Ok((seq![], next(ts, i)))
    } else {
        match expr_at(ts, i) {
            Ok((e, j)) => if !moved(ts, i, j) {
                Err((ErrorKind::ExpectedExpression, i))
            } else if tag_at(ts, j) == Some(TokenTag::Comma) {
                match args_at(ts, next(ts, j)) {
                    Ok((rest, k)) => Ok((seq![e] + rest, k)),
                    Err(err) => Err(err),
                }
            } else if tag_at(ts, j) == Some(TokenTag::RightParen) {
                Ok((seq![e], next(ts, j)))
            } else {
                Err((ErrorKind::ExpectedToken(TokenTag::RightParen), j))
            },
            Err(err) => Err(err),
        }
    }
}

/// `name : Type (= Expr)? ;`, starting at the name: a variable with its
/// type and initial value.
pub open spec fn binding_at(ts: Seq<TokenView>, i: int) -> Result<
    (Seq<char>, TypeView, Option<ExprView>, int),
    (ErrorKind, int),
> {
    match ident_at(ts, i) {
        Err(e) => Err(e),
        Ok((name, j)) => match expect(ts, j, TokenTag::Colon) {
            Err(e) => Err(e),
            Ok(k) => match type_at(ts, k) {
                Err(e) => Err(e),
                Ok((ty, l)) => if tag_at(ts, l) == Some(TokenTag::Operator(Op::Eq)) {
                    match expr_at(ts, next(ts, l)) {
                        Err(e) => Err(e),
                        Ok((init, m)) => match expect(ts, m, TokenTag::Semicolon) {
                            Err(e) => Err(e),
                            Ok(n) => Ok((name, ty, Some(init), n)),
                        },
                    }
                } else {
                    match expect(ts, l, TokenTag::Semicolon) {
                        Err(e) => Err(e),
                        Ok(n) => Ok((name, ty, None, n)),
                    }
                },
            },
        },
    }
}

/// `p` put in front of the items of a successful result.
pub open spec fn with_prefix<A>(p: Seq<A>, r: Result<(Seq<A>, int), (ErrorKind, int)>) -> Result<
    (Seq<A>, int),
    (ErrorKind, int),
> {
    match r {
        Ok((rest, k)) => Ok((p + rest, k)),
        Err(e) => Err(e),
    }
}

/// Stmt := Block
///       | `let` Binding
///       | `return` Expr? `;`
///       | `if` Expr Stmt (`else` Stmt)?
///       | `while` Expr Stmt
///       | `for` Ident `in` Expr Stmt
///       | `for` `(` Stmt Expr `;` Step `)` Stmt
///       | Step `;`
pub open spec fn stmt_at(ts: Seq<TokenView>, i: int) -> Result<(StmtView, int), (ErrorKind, int)>
    decreases ts.len() - i, 3nat,
{
    match tag_at(ts, i) {
        Some(TokenTag::LeftCurly) => block_at(ts, i),
        Some(TokenTag::Keyword(Keyword::Let)) => match binding_at(ts, next(ts, i)) {
            Ok((name, ty, init, j)) => Ok((StmtView::Declaration(name, ty, init), j)),
            Err(e) => Err(e),
        },
        Some(TokenTag::Keyword(Keyword::Return)) => return_at(ts, i),
        Some(TokenTag::Keyword(Keyword::If)) => if_at(ts, i),
        Some(TokenTag::Keyword(Keyword::While)) => while_at(ts, i),
        Some(TokenTag::Keyword(Keyword::For)) => for_at(ts, i),
        _ => simple_at(ts, i),
    }
}

/// `return` Expr? `;`, from the `return`.
pub open spec fn return_at(ts: Seq<TokenView>, i: int) -> Result<(StmtView, int), (ErrorKind, int)> {
    let j = next(ts, i);
    if tag_at(ts, j) == Some(TokenTag::Semicolon) {
        Ok((StmtView::Return(None), next(ts, j)))
    } else {
        match expr_at(ts, j) {
            Ok((e, k)) => match expect(ts, k, TokenTag::Semicolon) {
                Ok(l) => Ok((StmtView::Return(Some(e)), l)),
                Err(err) => Err(err),
            },
            Err(err) => Err(err),
        }
    }
}

/// `if` Expr Stmt (`else` Stmt)?, from the `if`.
pub open spec fn if_at(ts: Seq<TokenView>, i: int) -> Result<(StmtView, int), (ErrorKind, int)>
    decreases ts.len() - i, 2nat,
{
    match expr_at(ts, next(ts, i)) {
        Err(e) => Err(e),
        Ok((c, j)) => if !moved(ts, i, j) {
            Err((ErrorKind::ExpectedExpression, i))
        } else {
            match stmt_at(ts, j) {
                Err(e) => Err(e),
                Ok((then_branch, k)) => if !moved(ts, i, k) {
                    Err((ErrorKind::ExpectedExpression, i))
                } else if tag_at(ts, k) == Some(TokenTag::Keyword(Keyword::Else)) {
                    match stmt_at(ts, next(ts, k)) {
                        Err(e) => Err(e),
                        Ok((else_branch, l)) => Ok(
                            (
                                StmtView::If(c, Box::new(then_branch), Some(Box::new(else_branch))),
                                l,
                            ),
                        ),
                    }
                } else {
                    Ok((StmtView::If(c, Box::new(then_branch), None), k))
                },
            }
        },
    }
}

/// `while` Expr Stmt, from the `while`.
pub open spec fn while_at(ts: Seq<TokenView>, i: int) -> Result<(StmtView, int), (ErrorKind, int)>
    decreases ts.len() - i, 2nat,
{
    match expr_at(ts, next(ts, i)) {
        Err(e) => Err(e),
        Ok((c, j)) => if !moved(ts, i, j) {
            Err((ErrorKind::ExpectedExpression, i))
        } else {
            match stmt_at(ts, j) {
                Err(e) => Err(e),
                Ok((body, k)) => Ok((StmtView::While(c, Box::new(body)), k)),
            }
        },
    }
}

/// `for` Ident `in` Expr Stmt | `for` `(` Stmt Expr `;` Step `)` Stmt,
/// from the `for`.
pub open spec fn for_at(ts: Seq<TokenView>, i: int) -> Result<(StmtView, int), (ErrorKind, int)>
    decreases ts.len() - i, 2nat,
{
    let j = next(ts, i);
    if !moved(ts, i, j) {
        Err((ErrorKind::ExpectedExpression, i))
    } else if tag_at(ts, j) == Some(TokenTag::LeftParen) {
        counted_for_at(ts, j)
    } else {
        for_in_at(ts, j)
    }
}

/// Ident `in` Expr Stmt, after the `for`.
pub open spec fn for_in_at(ts: Seq<TokenView>, i: int) -> Result<(StmtView, int), (ErrorKind, int)>
    decreases ts.len() - i, 1nat,
{
    match ident_at(ts, i) {
        Err(e) => Err(e),
        Ok((name, j)) => match expect(ts, j, TokenTag::Keyword(Keyword::In)) {
            Err(e) => Err(e),
            Ok(k) => match expr_at(ts, k) {
                Err(e) => Err(e),
                Ok((iter, l)) => if !moved(ts, i, l) {
                    Err((ErrorKind::ExpectedExpression, i))
                } else {
                    match stmt_at(ts, l) {
                        Err(e) => Err(e),
                        Ok((body, m)) => Ok((StmtView::ForIn(name, iter, Box::new(body)), m)),
                    }
                },
            },
        },
    }
}

/// `(` Header Stmt, after the `for`: a counted loop.
pub open spec fn counted_for_at(ts: Seq<TokenView>, i: int) -> Result<(StmtView, int), (ErrorKind, int)>
    decreases ts.len() - i, 1nat,
{
    match expect(ts, i, TokenTag::LeftParen) {
        Err(e) => Err(e),
        Ok(p) => match for_header_at(ts, p) {
            Err(e) => Err(e),
            Ok((init, cond, step, n)) => if !moved(ts, i, n) {
                Err((ErrorKind::ExpectedExpression, i))
            } else {
                match stmt_at(ts, n) {
                    Err(e) => Err(e),
                    Ok((body, o)) => Ok(
                        (StmtView::For(Box::new(init), cond, Box::new(step), Box::new(body)), o),
                    ),
                }
            },
        },
    }
}

/// Header := Stmt Expr `;` Step `)`: the statement runs once, the expression
/// is the condition, the step follows each round.
pub open spec fn for_header_at(ts: Seq<TokenView>, i: int) -> Result<
    (StmtView, ExprView, StmtView, int),
    (ErrorKind, int),
>
    decreases ts.len() - i, 5nat,
{
    match stmt_at(ts, i) {
        Err(e) => Err(e),
        Ok((init, j)) => match expr_at(ts, j) {
            Err(e) => Err(e),
            Ok((cond, k)) => match expect(ts, k, TokenTag::Semicolon) {
                Err(e) => Err(e),
                Ok(l) => match step_at(ts, l) {
                    Err(e) => Err(e),
                    Ok((step, m)) => match expect(ts, m, TokenTag::RightParen) {
                        Err(e) => Err(e),
                        Ok(n) => Ok((init, cond, step, n)),
                    },
                },
            },
        },
    }
}

/// Step := Expr (`=` Expr)?: an expression or an assignment, with no `;`.
pub open spec fn step_at(ts: Seq<TokenView>, i: int) -> Result<(StmtView, int), (ErrorKind, int)> {
    match expr_at(ts, i) {
        Err(e) => Err(e),
        Ok((target, j)) => if tag_at(ts, j) == Some(TokenTag::Operator(Op::Eq)) {
            match expr_at(ts, next(ts, j)) {
                Err(e) => Err(e),
                Ok((value, k)) => Ok((StmtView::Assign(target, value), k)),
            }
        } else {
            Ok((StmtView::ExpressionStmt(target), j))
        },
    }
}

/// Step `;`: an expression statement or an assignment.
pub open spec fn simple_at(ts: Seq<TokenView>, i: int) -> Result<(StmtView, int), (ErrorKind, int)> {
    match step_at(ts, i) {
        Err(e) => Err(e),
        Ok((s, j)) => match expect(ts, j, TokenTag::Semicolon) {
            Err(e) => Err(e),
            Ok(k) => Ok((s, k)),
        },
    }
}

/// Block := `{` Stmt* `}`; with no statement it is `Empty`.
pub open spec fn block_at(ts: Seq<TokenView>, i: int) -> Result<(StmtView, int), (ErrorKind, int)>
    decreases ts.len() - i, 2nat,
{
    match expect(ts, i, TokenTag::LeftCurly) {
        Err(e) => Err(e),
        Ok(j) => if !moved(ts, i, j) {
            Err((ErrorKind::ExpectedToken(TokenTag::LeftCurly), i))
        } else {
            match stmts_at(ts, j) {
                Err(e) => Err(e),
                Ok((body, k)) => if body.len() == 0 {
                    Ok((StmtView::Empty, k))
                } else {
                    Ok((StmtView::Block(body), k))
                },
            }
        },
    }
}

/// The statements of a block up to and including its closing `}`.
pub open spec fn stmts_at(ts: Seq<TokenView>, i: int) -> Result<(Seq<StmtView>, int), (ErrorKind, int)>
    decreases ts.len() - i, 4nat,
{
    if tag_at(ts, i) == Some(TokenTag::RightCurly) {
        Ok((seq![], next(ts, i)))
    } else if tag_at(ts, i) is None {
        Err((ErrorKind::ExpectedToken(TokenTag::RightCurly), i))
    } else {
        match stmt_at(ts, i) {
            Err(e) => Err(e),
            Ok((s, j)) => if !moved(ts, i, j) {
                Err((ErrorKind::ExpectedExpression, i))
            } else {
                match stmts_at(ts, j) {
                    Err(e) => Err(e),
                    Ok((rest, k)) => Ok((seq![s] + rest, k)),
                }
            },
        }
    }
}

/// Params := `)` | Ident `:` Type `)` | Ident `:` Type `,` Params
pub open spec fn params_at(ts: Seq<TokenView>, i: int) -> Result<
    (Seq<(Seq<char>, TypeView)>, int),
    (ErrorKind, int),
>
    decreases ts.len() - i,
{
    if tag_at(ts, i) == Some(TokenTag::RightParen) {
        Ok((seq![], next(ts, i)))
    } else {
        match ident_at(ts, i) {
            Err(e) => Err(e),
            Ok((name, j)) => match expect(ts, j, TokenTag::Colon) {
                Err(e) => Err(e),
                Ok(k) => match type_at(ts, k) {
                    Err(e) => Err(e),
                    Ok((ty, l)) => if !moved(ts, i, l) {
                        Err((ErrorKind::ExpectedType, i))
                    } else if tag_at(ts, l) == Some(TokenTag::Comma) {
                        match params_at(ts, next(ts, l)) {
                            Err(e) => Err(e),
                            Ok((rest, m)) => Ok((seq![(name, ty)] + rest, m)),
                        }
                    } else {
                        match expect(ts, l, TokenTag::RightParen) {
                            Err(e) => Err(e),
                            Ok(m) => Ok((seq![(name, ty)], m)),
                        }
                    },
                },
            },
        }
    }
}

/// Whether some field in `fields` is named `name`.
pub open spec fn has_field(fields: Seq<(Seq<char>, TypeView)>, name: Seq<char>) -> bool {
    exists|k: int| 0 <= k < fields.len() && (#[trigger] fields[k]).0 == name
}

/// Fields := `}` | Ident `:` Type `}` | Ident `:` Type (`,` | `;`) Fields,
/// where `seen` holds the fields before; a repeated name is an error at
/// that name.
pub open spec fn fields_at(ts: Seq<TokenView>, i: int, seen: Seq<(Seq<char>, TypeView)>) -> Result<
    (Seq<(Seq<char>, TypeView)>, int),
    (ErrorKind, int),
>
    decreases ts.len() - i,
{
    if tag_at(ts, i) == Some(TokenTag::RightCurly) {
        Ok((seen, next(ts, i)))
    } else {
        match ident_at(ts, i) {
            Err(e) => Err(e),
            Ok((name, j)) => if has_field(seen, name) {
                Err((ErrorKind::DuplicateField, i))
            } else {
                match expect(ts, j, TokenTag::Colon) {
                    Err(e) => Err(e),
                    Ok(k) => match type_at(ts, k) {
                        Err(e) => Err(e),
                        Ok((ty, l)) => if !moved(ts, i, l) {
                            Err((ErrorKind::ExpectedType, i))
                        } else if tag_at(ts, l) == Some(TokenTag::Comma) || tag_at(ts, l) == Some(
                            TokenTag::Semicolon,
                        ) {
                            fields_at(ts, next(ts, l), seen.push((name, ty)))
                        } else {
                            match expect(ts, l, TokenTag::RightCurly) {
                                Err(e) => Err(e),
                                Ok(m) => Ok((seen.push((name, ty)), m)),
                            }
                        },
                    },
                }
            },
        }
    }
}

/// FnDef := `fn` Ident `(` Params (`->` Type)? Block
pub open spec fn fn_def_at(ts: Seq<TokenView>, i: int) -> Result<(DefView, int), (ErrorKind, int)> {
    match ident_at(ts, next(ts, i)) {
        Err(e) => Err(e),
        Ok((name, j)) => match expect(ts, j, TokenTag::LeftParen) {
            Err(e) => Err(e),
            Ok(k) => match params_at(ts, k) {
                Err(e) => Err(e),
                Ok((params, l)) => {
                    let ret = if tag_at(ts, l) == Some(TokenTag::RetArrow) {
                        match type_at(ts, next(ts, l)) {
                            Ok((t, m)) => Ok((Some(t), m)),
                            Err(e) => Err(e),
                        }
                    } else {
                        Ok((None, l))
                    };
                    match ret {
                        Err(e) => Err(e),
                        Ok((ret_type, m)) => match block_at(ts, m) {
                            Err(e) => Err(e),
                            Ok((body, n)) => Ok((DefView::FnDef(name, params, ret_type, body), n)),
                        },
                    }
                },
            },
        },
    }
}

/// StructDef := `struct` Ident `{` Fields
pub open spec fn struct_def_at(ts: Seq<TokenView>, i: int) -> Result<(DefView, int), (ErrorKind, int)> {
    match ident_at(ts, next(ts, i)) {
        Err(e) => Err(e),
        Ok((name, j)) => match expect(ts, j, TokenTag::LeftCurly) {
            Err(e) => Err(e),
            Ok(k) => match fields_at(ts, k, seq![]) {
                Err(e) => Err(e),
                Ok((fields, l)) => Ok((DefView::StructDef(name, fields), l)),
            },
        },
    }
}

/// Def := FnDef | `let` Binding | StructDef
pub open spec fn def_at(ts: Seq<TokenView>, i: int) -> Result<(DefView, int), (ErrorKind, int)> {
    match tag_at(ts, i) {
        Some(TokenTag::Keyword(Keyword::Fn)) => fn_def_at(ts, i),
        Some(TokenTag::Keyword(Keyword::Let)) => match binding_at(ts, next(ts, i)) {
            Ok((name, ty, init, j)) => Ok((DefView::GlobalDef(name, ty, init), j)),
            Err(e) => Err(e),
        },
        Some(TokenTag::Keyword(Keyword::Struct)) => struct_def_at(ts, i),
        _ => Err((ErrorKind::ExpectedDefinition, i)),
    }
}

/// Program := Def*, up to the end of the tokens.
pub open spec fn defs_at(ts: Seq<TokenView>, i: int) -> Result<Seq<DefView>, (ErrorKind, int)>
    decreases ts.len() - i,
{
    if i < 0 || i >= ts.len() {
        Ok(seq![])
    } else {
        match def_at(ts, i) {
            Err(e) => Err(e),
            Ok((d, j)) => if !moved(ts, i, j) {
                Err((ErrorKind::ExpectedDefinition, i))
            } else {
                match defs_at(ts, j) {
                    Err(e) => Err(e),
                    Ok(rest) => Ok(seq![d] + rest),
                }
            },
        }
    }
}

/// The definitions of a whole token sequence, leading trivia skipped.
pub open spec fn parse_tokens(ts: Seq<TokenView>) -> Result<Seq<DefView>, (ErrorKind, int)> {
    defs_at(ts, trivia_run(ts, 0) as int)
}

} // verus!

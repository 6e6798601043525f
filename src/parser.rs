//! The recursive-descent parser: tokens to a syntax tree, or the first syntax
//! error. Each parsing method follows the rule of the same shape in
//! `grammar`, and its contract says that it returns what that rule gives.
use crate::ast::{
    DefView, Definition, Expression, Literal, Program, Statement, StmtView, Struct, Type, TypeView,
    defs_view, exprs_view, fields_view, lemma_exprs_view, lemma_structs_unique_push, opt_expr_view, stmts_view, unique_names,
};
use crate::grammar::{
    ErrorKind, args_at, binding_at, block_at, def_at, defs_at, expect, expr_at, fields_at,
    counted_for_at, fn_def_at, for_header_at, for_at, for_in_at, step_at, has_field, ident_at, if_at, next, params_at, parse_tokens, primary_at,
    return_at, simple_at, stmt_at, stmts_at, struct_def_at, tag_at, trivia_run, type_at, unary_at,
    while_at, with_prefix, binary_rest,
};
use crate::tokenizer::tokens_view;
use crate::types::{Keyword, Op, Position, Token, TokenTag, TokenType, TokenView};
use vstd::prelude::*;

verus! {

/// A syntax error: what was missing, the file label, and the token where it
/// was found missing (`None` at the end of the input).
#[derive(Debug, Clone, PartialEq, Eq)]
pub struct SyntaxError {
    pub kind: ErrorKind,
    pub file: String,
    pub found: Option<Token>,
}

impl SyntaxError {
    /// Where the error arose: the position of the offending token, if any.
    pub fn position(&self) -> (r: Option<Position>)
        ensures
            r == match self.found {
                Some(t) => Some(t.pos),
                None => None::<Position>,
            },
    {
        match &self.found {
            Some(t) => Some(t.pos),
            None => None,
        }
    }
}

#[derive(Debug, Clone, PartialEq, Eq)]
pub struct Parser {
    pub file: String,
    pub tokens: Vec<Token>,
    pub token_index: usize,
}

impl Parser {
    pub open spec fn toks(&self) -> Seq<TokenView> {
        tokens_view(self.tokens@)
    }

    pub open spec fn at(&self) -> int {
        self.token_index as int
    }

    pub open spec fn wf(&self) -> bool {
        self.token_index <= self.tokens@.len()
    }

    /// `after` holds the same tokens and file label, with the cursor in range.
    pub open spec fn kept(&self, after: Parser) -> bool {
        &&& after.tokens == self.tokens
        &&& after.file == self.file
        &&& after.wf()
    }

    /// `e` reports `kind` at token index `at`, in this parser's file.
    pub open spec fn reports(&self, e: SyntaxError, kind: ErrorKind, at: int) -> bool {
        &&& e.kind == kind
        &&& e.file@ == self.file@
        &&& e.found == if 0 <= at < self.tokens@.len() {
            Some(self.tokens@[at])
        } else {
            None::<Token>
        }
    }

    pub fn new(file: String, tokens: Vec<Token>) -> (r: Parser)
        ensures
            r.file == file,
            r.tokens == tokens,
            r.token_index == 0,
            r.wf(),
    {
        Parser { file, tokens, token_index: 0 }
    }

    fn end_of_tokens(&self) -> (r: bool)
        ensures
            r == (self.token_index >= self.tokens@.len()),
    {
        self.token_index >= self.tokens.len()
    }

    /// The token under the cursor, if any.
    fn current_token(&self) -> (r: Option<&Token>)
        requires
            self.wf(),
        ensures
            match r {
                Some(t) => self.at() < self.tokens@.len() && *t == self.tokens@[self.at()],
                None => self.at() == self.tokens@.len(),
            },
    {
        if self.end_of_tokens() {
            None
        } else {
            Some(&self.tokens[self.token_index])
        }
    }

    /// The kind of the token under the cursor, payload left out.
    fn current_tag(&self) -> (r: Option<TokenTag>)
        requires
            self.wf(),
        ensures
            r == tag_at(self.toks(), self.at()),
    {
        match self.current_token() {
            Some(t) => Some(t.token_type.tag()),
            None => None,
        }
    }

    /// An error of `kind` at token index `at`.
    fn error_at(&self, kind: ErrorKind, at: usize) -> (r: SyntaxError)
        ensures
            self.reports(r, kind, at as int),
    {
        let found = if at < self.tokens.len() {
            Some(self.tokens[at].duplicate())
        } else {
            None
        };
        SyntaxError { kind, file: self.file.clone(), found }
    }

    /// An error of `kind` at the cursor.
    fn error(&self, kind: ErrorKind) -> (r: SyntaxError)
        requires
            self.wf(),
        ensures
            self.reports(r, kind, self.at()),
    {
        self.error_at(kind, self.token_index)
    }

    fn next_token(&mut self)
        requires
            old(self).wf(),
        ensures
            old(self).kept(*final(self)),
            final(self).at() == if old(self).at() < old(self).tokens@.len() {
                old(self).at() + 1
            } else {
                old(self).at()
            },
    {
        if self.token_index < self.tokens.len() {
            self.token_index += 1;
        }
    }

    /// Moves the cursor past any trivia under it.
    fn skip_trivia(&mut self)
        requires
            old(self).wf(),
        ensures
            old(self).kept(*final(self)),
            final(self).at() == old(self).at() + trivia_run(old(self).toks(), old(self).at()),
    {
        let ghost ts = self.toks();
        let ghost start = self.at();
        loop
            invariant
                old(self).kept(*self),
                ts == self.toks(),
                start <= self.at(),
                trivia_run(ts, start) == (self.at() - start) + trivia_run(ts, self.at()),
            ensures
                old(self).kept(*self),
                self.at() == start + trivia_run(ts, start),
            decreases self.tokens@.len() - self.token_index,
        {
            match self.current_tag() {
                Some(t) => {
                    if t == TokenTag::Whitespace || t == TokenTag::Newline || t
                        == TokenTag::Comment {
                        self.next_token();
                    } else {
                        break;
                    }
                },
                None => break,
            }
        }
    }

    /// Moves the cursor to the next significant token after the current one;
    /// at the end of the tokens the cursor stays there.
    fn next_non_whitespace_token(&mut self)
        requires
            old(self).wf(),
        ensures
            old(self).kept(*final(self)),
            final(self).at() == next(old(self).toks(), old(self).at()),
    {
        self.next_token();
        self.skip_trivia();
    }

    /// Requires a token of kind `tag` under the cursor and moves the cursor
    /// one token forward; on a mismatch, or at the end of the tokens, the
    /// parser is left unchanged.
    fn match_token(&mut self, tag: TokenTag) -> (r: Result<(), SyntaxError>)
        requires
            old(self).wf(),
        ensures
            old(self).kept(*final(self)),
            tag_at(old(self).toks(), old(self).at()) == Some(tag) ==> r is Ok && final(self).at()
                == old(self).at() + 1,
            tag_at(old(self).toks(), old(self).at()) != Some(tag) ==> r is Err && old(self).reports(
                r->Err_0,
                ErrorKind::ExpectedToken(tag),
                old(self).at(),
            ) && *final(self) == *old(self),
    {
        if self.current_tag() == Some(tag) {
            self.next_token();
            Ok(())
        } else {
            Err(self.error(ErrorKind::ExpectedToken(tag)))
        }
    }

    /// Matches a token of kind `tag`, then skips the trivia after it, so
    /// that the cursor rests on the next significant token; on a mismatch
    /// the parser is left unchanged.
    fn expect_token(&mut self, tag: TokenTag) -> (r: Result<(), SyntaxError>)
        requires
            old(self).wf(),
        ensures
            old(self).kept(*final(self)),
            match expect(old(self).toks(), old(self).at(), tag) {
                Ok(j) => r is Ok && final(self).at() == j && old(self).at() < j,
                Err((k, at)) => r is Err && old(self).reports(r->Err_0, k, at) && *final(self)
                    == *old(self),
            },
    {
        match self.match_token(tag) {
            Ok(()) => {
                self.skip_trivia();
                Ok(())
            },
            Err(e) => Err(e),
        }
    }

    /// Requires an identifier under the cursor: its text.
    fn parse_ident(&mut self) -> (r: Result<String, SyntaxError>)
        requires
            old(self).wf(),
        ensures
            old(self).kept(*final(self)),
            match ident_at(old(self).toks(), old(self).at()) {
                Ok((name, j)) => r is Ok && r->Ok_0@ == name && final(self).at() == j && old(
                    self,
                ).at() < j,
                Err((k, at)) => r is Err && old(self).reports(r->Err_0, k, at) && *final(self)
                    == *old(self),
            },
    {
        let name = match self.current_token() {
            Some(t) => match &t.token_type {
                TokenType::Identifier(s) => Some(s.clone()),
                _ => None,
            },
            None => None,
        };
        match name {
            Some(s) => {
                self.next_non_whitespace_token();
                Ok(s)
            },
            None => Err(self.error(ErrorKind::ExpectedToken(TokenTag::Identifier))),
        }
    }

    fn parse_type(&mut self) -> (r: Result<Type, SyntaxError>)
        requires
            old(self).wf(),
        ensures
            old(self).kept(*final(self)),
            match type_at(old(self).toks(), old(self).at()) {
                Ok((v, j)) => r is Ok && r->Ok_0@ == v && final(self).at() == j && old(self).at()
                    < j,
                Err((k, at)) => r is Err && old(self).reports(r->Err_0, k, at),
            },
        decreases old(self).tokens@.len() - old(self).token_index,
    {
        match self.current_tag() {
            Some(TokenTag::Keyword(Keyword::Type(p))) => {
                self.next_non_whitespace_token();
                Ok(Type::Primitive(p))
            },
            Some(TokenTag::Keyword(Keyword::Struct)) => {
                self.next_non_whitespace_token();
                match self.parse_ident() {
                    Ok(n) => Ok(Type::Struct(n)),
                    Err(e) => Err(e),
                }
            },
            Some(TokenTag::Keyword(Keyword::Interface)) => {
                self.next_non_whitespace_token();
                match self.parse_ident() {
                    Ok(n) => Ok(Type::Interface(n)),
                    Err(e) => Err(e),
                }
            },
            Some(TokenTag::Operator(Op::Mul)) => {
                self.next_non_whitespace_token();
                match self.parse_type() {
                    Ok(t) => Ok(Type::Pointer(Box::new(t))),
                    Err(e) => Err(e),
                }
            },
            _ => Err(self.error(ErrorKind::ExpectedType)),
        }
    }

    /// A copy of the kind of the token under the cursor, if any.
    fn current_kind(&self) -> (r: Option<TokenType>)
        requires
            self.wf(),
        ensures
            match r {
                Some(k) => self.at() < self.tokens@.len() && k == self.tokens@[self.at()].token_type,
                None => self.at() == self.tokens@.len(),
            },
    {
        match self.current_token() {
            Some(t) => Some(t.token_type.duplicate()),
            None => None,
        }
    }

    #[verifier::rlimit(40)]
    fn parse_expr(&mut self) -> (r: Result<Expression, SyntaxError>)
        requires
            old(self).wf(),
        ensures
            old(self).kept(*final(self)),
            match expr_at(old(self).toks(), old(self).at()) {
                Ok((v, j)) => r is Ok && r->Ok_0@ == v && final(self).at() == j && old(self).at()
                    < j,
                Err((k, at)) => r is Err && old(self).reports(r->Err_0, k, at),
            },
        decreases old(self).tokens@.len() - old(self).token_index, 3nat,
    {
        let ghost ts = self.toks();
        let ghost start = self.at();
        let mut lhs = match self.parse_unary() {
            Ok(e) => e,
            Err(e) => return Err(e),
        };
        loop
            invariant
                old(self).kept(*self),
                ts == self.toks(),
                ts == old(self).toks(),
                start == old(self).at(),
                start < self.at(),
                expr_at(ts, start) == binary_rest(ts, self.at(), lhs@),
            decreases self.tokens@.len() - self.token_index,
        {
            let op = match self.current_tag() {
                Some(TokenTag::Operator(op)) => op,
                _ => return Ok(lhs),
            };
            if op == Op::Not || op == Op::Eq {
                return Ok(lhs);
            }
            self.next_non_whitespace_token();
            match self.parse_unary() {
                Ok(rhs) => {
                    lhs = Expression::BinaryOp(op, Box::new(lhs), Box::new(rhs));
                },
                Err(e) => return Err(e),
            }
        }
    }

    fn parse_unary(&mut self) -> (r: Result<Expression, SyntaxError>)
        requires
            old(self).wf(),
        ensures
            old(self).kept(*final(self)),
            match unary_at(old(self).toks(), old(self).at()) {
                Ok((v, j)) => r is Ok && r->Ok_0@ == v && final(self).at() == j && old(self).at()
                    < j,
                Err((k, at)) => r is Err && old(self).reports(r->Err_0, k, at),
            },
        decreases old(self).tokens@.len() - old(self).token_index, 2nat,
    {
        match self.current_tag() {
            Some(TokenTag::Operator(op)) => {
                if op == Op::Not || op == Op::Sub {
                    self.next_non_whitespace_token();
                    match self.parse_unary() {
                        Ok(e) => Ok(Expression::UnaryOp(op, Box::new(e))),
                        Err(e) => Err(e),
                    }
                } else {
                    self.parse_primary()
                }
            },
            _ => self.parse_primary(),
        }
    }

    #[verifier::rlimit(40)]
    fn parse_primary(&mut self) -> (r: Result<Expression, SyntaxError>)
        requires
            old(self).wf(),
        ensures
            old(self).kept(*final(self)),
            match primary_at(old(self).toks(), old(self).at()) {
                Ok((v, j)) => r is Ok && r->Ok_0@ == v && final(self).at() == j && old(self).at()
                    < j,
                Err((k, at)) => r is Err && old(self).reports(r->Err_0, k, at),
            },
        decreases old(self).tokens@.len() - old(self).token_index, 1nat,
    {
        match self.current_kind() {
            Some(TokenType::Number(n)) => {
                self.next_non_whitespace_token();
                Ok(Expression::Literal(Literal::Number(n)))
            },
            Some(TokenType::StrLiteral(s)) => {
                self.next_non_whitespace_token();
                Ok(Expression::Literal(Literal::Str(s)))
            },
            Some(TokenType::Identifier(name)) => {
                self.next_non_whitespace_token();
                if self.current_tag() == Some(TokenTag::LeftParen) {
                    self.next_non_whitespace_token();
                    match self.parse_args() {
                        Ok(args) => Ok(Expression::Call(name, args)),
                        Err(e) => Err(e),
                    }
                } else {
                    Ok(Expression::Identifier(name))
                }
            },
            Some(TokenType::LeftParen) => {
                self.next_non_whitespace_token();
                match self.parse_expr() {
                    Ok(e) => match self.expect_token(TokenTag::RightParen) {
                        Ok(()) => Ok(e),
                        Err(err) => Err(err),
                    },
                    Err(e) => Err(e),
                }
            },
            _ => Err(self.error(ErrorKind::ExpectedExpression)),
        }
    }

    /// The arguments of a call, after its `(`, up to and including the `)`.
    fn parse_args(&mut self) -> (r: Result<Vec<Expression>, SyntaxError>)
        requires
            old(self).wf(),
        ensures
            old(self).kept(*final(self)),
            match args_at(old(self).toks(), old(self).at()) {
                Ok((v, j)) => r is Ok && exprs_view(r->Ok_0@) == v && final(self).at() == j
                    && old(self).at() < j,
                Err((k, at)) => r is Err && old(self).reports(r->Err_0, k, at),
            },
        decreases old(self).tokens@.len() - old(self).token_index, 4nat,
    {
        if self.current_tag() == Some(TokenTag::RightParen) {
            self.next_non_whitespace_token();
            return Ok(Vec::new());
        }
        let e = match self.parse_expr() {
            Ok(e) => e,
            Err(err) => return Err(err),
        };
        if self.current_tag() == Some(TokenTag::Comma) {
            self.next_non_whitespace_token();
            match self.parse_args() {
                Ok(rest) => {
                    let mut args = rest;
                    let ghost before = args@;
                    args.insert(0, e);
                    proof {
                        lemma_exprs_view(before);
                        lemma_exprs_view(args@);
                        assert(exprs_view(args@) =~= seq![args@[0]@] + exprs_view(before));
                    }
                    Ok(args)
                },
                Err(err) => Err(err),
            }
        } else if self.current_tag() == Some(TokenTag::RightParen) {
            self.next_non_whitespace_token();
            let mut args = Vec::new();
            args.push(e);
            proof {
                lemma_exprs_view(args@);
                assert(exprs_view(args@) =~= seq![args@[0]@]);
            }
            Ok(args)
        } else {
            Err(self.error(ErrorKind::ExpectedToken(TokenTag::RightParen)))
        }
    }
    /// `name : Type (= Expr)? ;` with the cursor on the name.
    fn parse_binding(&mut self) -> (r: Result<(String, Type, Option<Expression>), SyntaxError>)
        requires
            old(self).wf(),
        ensures
            old(self).kept(*final(self)),
            match binding_at(old(self).toks(), old(self).at()) {
                Ok((name, ty, init, j)) => r is Ok && r->Ok_0.0@ == name && r->Ok_0.1@ == ty
                    && opt_expr_view(r->Ok_0.2) == init && final(self).at() == j && old(self).at()
                    < j,
                Err((k, at)) => r is Err && old(self).reports(r->Err_0, k, at),
            },
    {
        let name = match self.parse_ident() {
            Ok(n) => n,
            Err(e) => return Err(e),
        };
        if let Err(e) = self.expect_token(TokenTag::Colon) {
            return Err(e);
        }
        let ty = match self.parse_type() {
            Ok(t) => t,
            Err(e) => return Err(e),
        };
        let mut init = None;
        if self.current_tag() == Some(TokenTag::Operator(Op::Eq)) {
            self.next_non_whitespace_token();
            match self.parse_expr() {
                Ok(e) => {
                    init = Some(e);
                },
                Err(e) => return Err(e),
            }
        }
        match self.expect_token(TokenTag::Semicolon) {
            Ok(()) => Ok((name, ty, init)),
            Err(e) => Err(e),
        }
    }

    fn parse_statement(&mut self) -> (r: Result<Statement, SyntaxError>)
        requires
            old(self).wf(),
        ensures
            old(self).kept(*final(self)),
            match stmt_at(old(self).toks(), old(self).at()) {
                Ok((v, j)) => r is Ok && r->Ok_0@ == v && final(self).at() == j && old(self).at()
                    < j,
                Err((k, at)) => r is Err && old(self).reports(r->Err_0, k, at),
            },
        decreases old(self).tokens@.len() - old(self).token_index, 3nat,
    {
        match self.current_tag() {
            Some(TokenTag::LeftCurly) => self.parse_block(),
            Some(TokenTag::Keyword(Keyword::Let)) => {
                self.next_non_whitespace_token();
                match self.parse_binding() {
                    Ok((name, ty, init)) => Ok(Statement::Declaration(name, ty, init)),
                    Err(e) => Err(e),
                }
            },
            Some(TokenTag::Keyword(Keyword::Return)) => self.parse_return(),
            Some(TokenTag::Keyword(Keyword::If)) => self.parse_if(),
            Some(TokenTag::Keyword(Keyword::While)) => self.parse_while(),
            Some(TokenTag::Keyword(Keyword::For)) => self.parse_for(),
            _ => self.parse_simple(),
        }
    }

    fn parse_return(&mut self) -> (r: Result<Statement, SyntaxError>)
        requires
            old(self).wf(),
            old(self).at() < old(self).tokens@.len(),
        ensures
            old(self).kept(*final(self)),
            match return_at(old(self).toks(), old(self).at()) {
                Ok((v, j)) => r is Ok && r->Ok_0@ == v && final(self).at() == j && old(self).at()
                    < j,
                Err((k, at)) => r is Err && old(self).reports(r->Err_0, k, at),
            },
    {
        self.next_non_whitespace_token();
        if self.current_tag() == Some(TokenTag::Semicolon) {
            self.next_non_whitespace_token();
            return Ok(Statement::Return(None));
        }
        let e = match self.parse_expr() {
            Ok(e) => e,
            Err(err) => return Err(err),
        };
        match self.expect_token(TokenTag::Semicolon) {
            Ok(()) => Ok(Statement::Return(Some(e))),
            Err(err) => Err(err),
        }
    }

    fn parse_if(&mut self) -> (r: Result<Statement, SyntaxError>)
        requires
            old(self).wf(),
            old(self).at() < old(self).tokens@.len(),
        ensures
            old(self).kept(*final(self)),
            match if_at(old(self).toks(), old(self).at()) {
                Ok((v, j)) => r is Ok && r->Ok_0@ == v && final(self).at() == j && old(self).at()
                    < j,
                Err((k, at)) => r is Err && old(self).reports(r->Err_0, k, at),
            },
        decreases old(self).tokens@.len() - old(self).token_index, 2nat,
    {
        self.next_non_whitespace_token();
        let c = match self.parse_expr() {
            Ok(e) => e,
            Err(err) => return Err(err),
        };
        let then_branch = match self.parse_statement() {
            Ok(s) => s,
            Err(err) => return Err(err),
        };
        if self.current_tag() == Some(TokenTag::Keyword(Keyword::Else)) {
            self.next_non_whitespace_token();
            match self.parse_statement() {
                Ok(s) => Ok(Statement::If(c, Box::new(then_branch), Some(Box::new(s)))),
                Err(err) => Err(err),
            }
        } else {
            Ok(Statement::If(c, Box::new(then_branch), None))
        }
    }

    fn parse_while(&mut self) -> (r: Result<Statement, SyntaxError>)
        requires
            old(self).wf(),
            old(self).at() < old(self).tokens@.len(),
        ensures
            old(self).kept(*final(self)),
            match while_at(old(self).toks(), old(self).at()) {
                Ok((v, j)) => r is Ok && r->Ok_0@ == v && final(self).at() == j && old(self).at()
                    < j,
                Err((k, at)) => r is Err && old(self).reports(r->Err_0, k, at),
            },
        decreases old(self).tokens@.len() - old(self).token_index, 2nat,
    {
        self.next_non_whitespace_token();
        let c = match self.parse_expr() {
            Ok(e) => e,
            Err(err) => return Err(err),
        };
        match self.parse_statement() {
            Ok(s) => Ok(Statement::While(c, Box::new(s))),
            Err(err) => Err(err),
        }
    }

    fn parse_for(&mut self) -> (r: Result<Statement, SyntaxError>)
        requires
            old(self).wf(),
            old(self).at() < old(self).tokens@.len(),
        ensures
            old(self).kept(*final(self)),
            match for_at(old(self).toks(), old(self).at()) {
                Ok((v, j)) => r is Ok && r->Ok_0@ == v && final(self).at() == j && old(self).at()
                    < j,
                Err((k, at)) => r is Err && old(self).reports(r->Err_0, k, at),
            },
        decreases old(self).tokens@.len() - old(self).token_index, 2nat,
    {
        self.next_non_whitespace_token();
        if self.current_tag() == Some(TokenTag::LeftParen) {
            self.parse_counted_for()
        } else {
            self.parse_for_in()
        }
    }

    /// `x in items body`, after the `for`.
    fn parse_for_in(&mut self) -> (r: Result<Statement, SyntaxError>)
        requires
            old(self).wf(),
        ensures
            old(self).kept(*final(self)),
            match for_in_at(old(self).toks(), old(self).at()) {
                Ok((v, j)) => r is Ok && r->Ok_0@ == v && final(self).at() == j && old(self).at()
                    < j,
                Err((k, at)) => r is Err && old(self).reports(r->Err_0, k, at),
            },
        decreases old(self).tokens@.len() - old(self).token_index, 1nat,
    {
        let name = match self.parse_ident() {
            Ok(n) => n,
            Err(err) => return Err(err),
        };
        if let Err(err) = self.expect_token(TokenTag::Keyword(Keyword::In)) {
            return Err(err);
        }
        let iter = match self.parse_expr() {
            Ok(e) => e,
            Err(err) => return Err(err),
        };
        match self.parse_statement() {
            Ok(s) => Ok(Statement::ForIn(name, iter, Box::new(s))),
            Err(err) => Err(err),
        }
    }

    /// `(init cond; step) body`, after the `for`.
    #[verifier::rlimit(80)]
    fn parse_counted_for(&mut self) -> (r: Result<Statement, SyntaxError>)
        requires
            old(self).wf(),
        ensures
            old(self).kept(*final(self)),
            match counted_for_at(old(self).toks(), old(self).at()) {
                Ok((v, j)) => r is Ok && r->Ok_0@ == v && final(self).at() == j && old(self).at()
                    < j,
                Err((k, at)) => r is Err && old(self).reports(r->Err_0, k, at),
            },
        decreases old(self).tokens@.len() - old(self).token_index, 1nat,
    {
        if let Err(err) = self.expect_token(TokenTag::LeftParen) {
            return Err(err);
        }
        let (init, cond, step) = match self.parse_for_header() {
            Ok(h) => h,
            Err(err) => return Err(err),
        };
        match self.parse_statement() {
            Ok(body) => Ok(Statement::For(Box::new(init), cond, Box::new(step), Box::new(body))),
            Err(err) => Err(err),
        }
    }

    /// `init cond; step)`, after the `(` of a counted loop.
    fn parse_for_header(&mut self) -> (r: Result<(Statement, Expression, Statement), SyntaxError>)
        requires
            old(self).wf(),
        ensures
            old(self).kept(*final(self)),
            match for_header_at(old(self).toks(), old(self).at()) {
                Ok((init, cond, step, j)) => r is Ok && r->Ok_0.0@ == init && r->Ok_0.1@ == cond
                    && r->Ok_0.2@ == step && final(self).at() == j && old(self).at() < j,
                Err((k, at)) => r is Err && old(self).reports(r->Err_0, k, at),
            },
        decreases old(self).tokens@.len() - old(self).token_index, 5nat,
    {
        let init = match self.parse_statement() {
            Ok(s) => s,
            Err(err) => return Err(err),
        };
        let cond = match self.parse_expr() {
            Ok(e) => e,
            Err(err) => return Err(err),
        };
        if let Err(err) = self.expect_token(TokenTag::Semicolon) {
            return Err(err);
        }
        let step = match self.parse_step() {
            Ok(s) => s,
            Err(err) => return Err(err),
        };
        match self.expect_token(TokenTag::RightParen) {
            Ok(()) => Ok((init, cond, step)),
            Err(err) => Err(err),
        }
    }

    /// An expression or an assignment, with no `;` after it.
    fn parse_step(&mut self) -> (r: Result<Statement, SyntaxError>)
        requires
            old(self).wf(),
        ensures
            old(self).kept(*final(self)),
            match step_at(old(self).toks(), old(self).at()) {
                Ok((v, j)) => r is Ok && r->Ok_0@ == v && final(self).at() == j && old(self).at()
                    < j,
                Err((k, at)) => r is Err && old(self).reports(r->Err_0, k, at),
            },
    {
        let target = match self.parse_expr() {
            Ok(e) => e,
            Err(err) => return Err(err),
        };
        if self.current_tag() == Some(TokenTag::Operator(Op::Eq)) {
            self.next_non_whitespace_token();
            match self.parse_expr() {
                Ok(value) => Ok(Statement::Assign(target, value)),
                Err(err) => Err(err),
            }
        } else {
            Ok(Statement::ExpressionStmt(target))
        }
    }

    /// An expression statement or an assignment.
    fn parse_simple(&mut self) -> (r: Result<Statement, SyntaxError>)
        requires
            old(self).wf(),
        ensures
            old(self).kept(*final(self)),
            match simple_at(old(self).toks(), old(self).at()) {
                Ok((v, j)) => r is Ok && r->Ok_0@ == v && final(self).at() == j && old(self).at()
                    < j,
                Err((k, at)) => r is Err && old(self).reports(r->Err_0, k, at),
            },
    {
        let s = match self.parse_step() {
            Ok(s) => s,
            Err(err) => return Err(err),
        };
        match self.expect_token(TokenTag::Semicolon) {
            Ok(()) => Ok(s),
            Err(err) => Err(err),
        }
    }

    /// `{` statements `}`; with no statement inside it is `Empty`.
    fn parse_block(&mut self) -> (r: Result<Statement, SyntaxError>)
        requires
            old(self).wf(),
        ensures
            old(self).kept(*final(self)),
            match block_at(old(self).toks(), old(self).at()) {
                Ok((v, j)) => r is Ok && r->Ok_0@ == v && final(self).at() == j && old(self).at()
                    < j,
                Err((k, at)) => r is Err && old(self).reports(r->Err_0, k, at),
            },
        decreases old(self).tokens@.len() - old(self).token_index, 2nat,
    {
        if let Err(e) = self.expect_token(TokenTag::LeftCurly) {
            return Err(e);
        }
        match self.parse_statements() {
            Ok(body) => {
                if body.len() == 0 {
                    Ok(Statement::Empty)
                } else {
                    Ok(Statement::Block(body))
                }
            },
            Err(e) => Err(e),
        }
    }

    /// The statements of a block, after its `{`, up to and including the `}`.
    #[verifier::rlimit(40)]
    fn parse_statements(&mut self) -> (r: Result<Vec<Statement>, SyntaxError>)
        requires
            old(self).wf(),
        ensures
            old(self).kept(*final(self)),
            match stmts_at(old(self).toks(), old(self).at()) {
                Ok((v, j)) => r is Ok && stmts_view(r->Ok_0@) == v && final(self).at() == j
                    && old(self).at() < j,
                Err((k, at)) => r is Err && old(self).reports(r->Err_0, k, at),
            },
        decreases old(self).tokens@.len() - old(self).token_index, 4nat,
    {
        let ghost ts = self.toks();
        let ghost start = self.at();
        let mut body: Vec<Statement> = Vec::new();
        proof {
            let r = stmts_at(ts, start);
            if r is Ok {
                assert(Seq::<StmtView>::empty() + r->Ok_0.0 =~= r->Ok_0.0);
            }
            assert(stmts_view(body@) =~= Seq::<StmtView>::empty());
        }
        loop
            invariant
                old(self).kept(*self),
                ts == self.toks(),
                ts == old(self).toks(),
                start == old(self).at(),
                start <= self.at(),
                stmts_at(ts, start) == with_prefix(stmts_view(body@), stmts_at(ts, self.at())),
            decreases self.tokens@.len() - self.token_index,
        {
            match self.current_tag() {
                Some(TokenTag::RightCurly) => {
                    self.next_non_whitespace_token();
                    proof {
                        assert(stmts_view(body@) + Seq::<StmtView>::empty() =~= stmts_view(body@));
                    }
                    return Ok(body);
                },
                None => return Err(self.error(ErrorKind::ExpectedToken(TokenTag::RightCurly))),
                _ => {},
            }
            match self.parse_statement() {
                Ok(s) => {
                    let ghost before = body@;
                    body.push(s);
                    proof {
                        assert(body@.subrange(0, body@.len() - 1) =~= before);
                        let rest = stmts_at(ts, self.at());
                        if rest is Ok {
                            assert(stmts_view(before) + (seq![s@] + rest->Ok_0.0) =~= stmts_view(
                                body@,
                            ) + rest->Ok_0.0);
                        }
                    }
                },
                Err(e) => return Err(e),
            }
        }
    }
    /// The parameters of a function, after its `(`, up to and including the `)`.
    #[verifier::rlimit(40)]
    fn parse_params(&mut self) -> (r: Result<Vec<(String, Type)>, SyntaxError>)
        requires
            old(self).wf(),
        ensures
            old(self).kept(*final(self)),
            match params_at(old(self).toks(), old(self).at()) {
                Ok((v, j)) => r is Ok && fields_view(r->Ok_0@) == v && final(self).at() == j && old(self).at()
                    < j,
                Err((k, at)) => r is Err && old(self).reports(r->Err_0, k, at),
            },
    {
        let ghost ts = self.toks();
        let ghost start = self.at();
        let mut params: Vec<(String, Type)> = Vec::new();
        proof {
            let r = params_at(ts, start);
            if r is Ok {
                assert(Seq::<(Seq<char>, TypeView)>::empty() + r->Ok_0.0 =~= r->Ok_0.0);
            }
            assert(fields_view(params@) =~= Seq::<(Seq<char>, TypeView)>::empty());
        }
        loop
            invariant
                old(self).kept(*self),
                ts == self.toks(),
                ts == old(self).toks(),
                start == old(self).at(),
                start <= self.at(),
                params_at(ts, start) == with_prefix(fields_view(params@), params_at(ts, self.at())),
            decreases self.tokens@.len() - self.token_index,
        {
            if self.current_tag() == Some(TokenTag::RightParen) {
                self.next_non_whitespace_token();
                proof {
                    assert(fields_view(params@) + Seq::<(Seq<char>, TypeView)>::empty()
                        =~= fields_view(params@));
                }
                return Ok(params);
            }
            let name = match self.parse_ident() {
                Ok(n) => n,
                Err(e) => return Err(e),
            };
            if let Err(e) = self.expect_token(TokenTag::Colon) {
                return Err(e);
            }
            let ty = match self.parse_type() {
                Ok(t) => t,
                Err(e) => return Err(e),
            };
            let ghost before = params@;
            let ghost item = (name@, ty@);
            params.push((name, ty));
            proof {
                assert(fields_view(params@) =~= fields_view(before).push(item));
            }
            if self.current_tag() == Some(TokenTag::Comma) {
                self.next_non_whitespace_token();
                proof {
                    let rest = params_at(ts, self.at());
                    if rest is Ok {
                        assert(fields_view(before) + (seq![item] + rest->Ok_0.0) =~= fields_view(
                            params@,
                        ) + rest->Ok_0.0);
                    }
                }
            } else {
                match self.expect_token(TokenTag::RightParen) {
                    Ok(()) => {
                        proof {
                            assert(fields_view(before) + seq![item] =~= fields_view(params@));
                        }
                        return Ok(params);
                    },
                    Err(e) => return Err(e),
                }
            }
        }
    }

    /// Whether a field among `fields` is named `name`.
    fn has_field_named(fields: &Vec<(String, Type)>, name: &String) -> (r: bool)
        ensures
            r == has_field(fields_view(fields@), name@),
    {
        let mut k: usize = 0;
        while k < fields.len()
            invariant
                k <= fields@.len(),
                forall|m: int| 0 <= m < k ==> (#[trigger] fields_view(fields@)[m]).0 != name@,
            decreases fields@.len() - k,
        {
            if fields[k].0 == *name {
                assert(fields_view(fields@)[k as int].0 == name@);
                return true;
            }
            k += 1;
        }
        false
    }

    /// The fields of a struct, after its `{`, up to and including the `}`.
    #[verifier::rlimit(40)]
    fn parse_fields(&mut self) -> (r: Result<Vec<(String, Type)>, SyntaxError>)
        requires
            old(self).wf(),
        ensures
            old(self).kept(*final(self)),
            match fields_at(old(self).toks(), old(self).at(), seq![]) {
                Ok((v, j)) => r is Ok && fields_view(r->Ok_0@) == v && unique_names(v)
                    && final(self).at() == j && old(self).at() < j,
                Err((k, at)) => r is Err && old(self).reports(r->Err_0, k, at),
            },
    {
        let ghost ts = self.toks();
        let ghost start = self.at();
        let mut fields: Vec<(String, Type)> = Vec::new();
        proof {
            assert(fields_view(fields@) =~= Seq::<(Seq<char>, TypeView)>::empty());
        }
        loop
            invariant
                old(self).kept(*self),
                ts == self.toks(),
                ts == old(self).toks(),
                start == old(self).at(),
                start <= self.at(),
                fields@.len() > 0 ==> start < self.at(),
                unique_names(fields_view(fields@)),
                fields_at(ts, start, seq![]) == fields_at(ts, self.at(), fields_view(fields@)),
            decreases self.tokens@.len() - self.token_index,
        {
            if self.current_tag() == Some(TokenTag::RightCurly) {
                self.next_non_whitespace_token();
                return Ok(fields);
            }
            let at = self.token_index;
            let name = match self.parse_ident() {
                Ok(n) => n,
                Err(e) => return Err(e),
            };
            if Self::has_field_named(&fields, &name) {
                return Err(self.error_at(ErrorKind::DuplicateField, at));
            }
            if let Err(e) = self.expect_token(TokenTag::Colon) {
                return Err(e);
            }
            let ty = match self.parse_type() {
                Ok(t) => t,
                Err(e) => return Err(e),
            };
            let ghost before = fields@;
            let ghost item = (name@, ty@);
            fields.push((name, ty));
            proof {
                assert(fields_view(fields@) =~= fields_view(before).push(item));
                assert forall|a: int, b: int|
                    0 <= a < b < fields_view(fields@).len() implies (#[trigger] fields_view(
                    fields@,
                )[a]).0 != (#[trigger] fields_view(fields@)[b]).0 by {
                    if b == fields_view(before).len() {
                        assert(fields_view(before)[a] == fields_view(fields@)[a]);
                    }
                }
            }
            if self.current_tag() == Some(TokenTag::Comma) || self.current_tag() == Some(
                TokenTag::Semicolon,
            ) {
                self.next_non_whitespace_token();
            } else {
                match self.expect_token(TokenTag::RightCurly) {
                    Ok(()) => return Ok(fields),
                    Err(e) => return Err(e),
                }
            }
        }
    }

    /// A function definition, from its `fn`.
    fn parse_fn_def(&mut self) -> (r: Result<Definition, SyntaxError>)
        requires
            old(self).wf(),
            old(self).at() < old(self).tokens@.len(),
        ensures
            old(self).kept(*final(self)),
            match fn_def_at(old(self).toks(), old(self).at()) {
                Ok((v, j)) => r is Ok && r->Ok_0@ == v && final(self).at() == j && old(self).at()
                    < j,
                Err((k, at)) => r is Err && old(self).reports(r->Err_0, k, at),
            },
    {
        self.next_non_whitespace_token();
        let name = match self.parse_ident() {
            Ok(n) => n,
            Err(e) => return Err(e),
        };
        if let Err(e) = self.expect_token(TokenTag::LeftParen) {
            return Err(e);
        }
        let params = match self.parse_params() {
            Ok(p) => p,
            Err(e) => return Err(e),
        };
        let mut return_type = None;
        if self.current_tag() == Some(TokenTag::RetArrow) {
            self.next_non_whitespace_token();
            match self.parse_type() {
                Ok(t) => {
                    return_type = Some(t);
                },
                Err(e) => return Err(e),
            }
        }
        match self.parse_block() {
            Ok(body) => Ok(Definition::FnDef(name, params, return_type, body)),
            Err(e) => Err(e),
        }
    }

    /// A struct definition, from its `struct`.
    fn parse_struct_def(&mut self) -> (r: Result<Definition, SyntaxError>)
        requires
            old(self).wf(),
            old(self).at() < old(self).tokens@.len(),
        ensures
            old(self).kept(*final(self)),
            match struct_def_at(old(self).toks(), old(self).at()) {
                Ok((v, j)) => r is Ok && r->Ok_0@ == v && r->Ok_0->StructDef_0.wf() && final(self).at() == j && old(self).at()
                    < j,
                Err((k, at)) => r is Err && old(self).reports(r->Err_0, k, at),
            },
    {
        self.next_non_whitespace_token();
        let name = match self.parse_ident() {
            Ok(n) => n,
            Err(e) => return Err(e),
        };
        if let Err(e) = self.expect_token(TokenTag::LeftCurly) {
            return Err(e);
        }
        match self.parse_fields() {
            Ok(fields) => Ok(Definition::StructDef(Struct { name, fields })),
            Err(e) => Err(e),
        }
    }

    /// A definition: a function, a global variable or a struct.
    fn parse_definition(&mut self) -> (r: Result<Definition, SyntaxError>)
        requires
            old(self).wf(),
        ensures
            old(self).kept(*final(self)),
            match def_at(old(self).toks(), old(self).at()) {
                Ok((v, j)) => r is Ok && r->Ok_0@ == v && (r->Ok_0 is StructDef ==> r->Ok_0->StructDef_0.wf()) && final(self).at() == j && old(self).at()
                    < j,
                Err((k, at)) => r is Err && old(self).reports(r->Err_0, k, at),
            },
    {
        match self.current_tag() {
            Some(TokenTag::Keyword(Keyword::Fn)) => self.parse_fn_def(),
            Some(TokenTag::Keyword(Keyword::Let)) => {
                self.next_non_whitespace_token();
                match self.parse_binding() {
                    Ok((name, ty, init)) => Ok(Definition::GlobalDef(name, ty, init)),
                    Err(e) => Err(e),
                }
            },
            Some(TokenTag::Keyword(Keyword::Struct)) => self.parse_struct_def(),
            _ => Err(self.error(ErrorKind::ExpectedDefinition)),
        }
    }

    /// Build the syntax tree of all the tokens, from the first, or report the
    /// first syntax error.
    #[verifier::rlimit(40)]
    pub fn parse(&mut self) -> (r: Result<Program, SyntaxError>)
        ensures
            final(self).tokens == old(self).tokens,
            final(self).file == old(self).file,
            final(self).wf(),
            match parse_tokens(old(self).toks()) {
                Ok(defs) => r is Ok && defs_view(r->Ok_0.definitions@) == defs && r->Ok_0.wf(),
                Err((k, at)) => r is Err && old(self).reports(r->Err_0, k, at),
            },
    {
        self.token_index = 0;
        self.skip_trivia();
        let ghost ts = self.toks();
        let mut program = Program::new();
        proof {
            let r = parse_tokens(ts);
            if r is Ok {
                assert(Seq::<DefView>::empty() + r->Ok_0 =~= r->Ok_0);
            }
            assert(defs_view(program.definitions@) =~= Seq::<DefView>::empty());
        }
        loop
            invariant
                self.wf(),
                self.tokens == old(self).tokens,
                self.file == old(self).file,
                ts == self.toks(),
                ts == old(self).toks(),
                parse_tokens(ts) == defs_with_prefix(
                    defs_view(program.definitions@),
                    defs_at(ts, self.at()),
                ),
                program.wf(),
            decreases self.tokens@.len() - self.token_index,
        {
            if self.end_of_tokens() {
                proof {
                    assert(defs_view(program.definitions@) + Seq::<DefView>::empty() =~= defs_view(
                        program.definitions@,
                    ));
                }
                return Ok(program);
            }
            let ghost at = self.at();
            match self.parse_definition() {
                Ok(d) => {
                    let ghost before = program.definitions@;
                    proof {
                        assert(defs_at(ts, at) == defs_with_prefix(seq![d@], defs_at(ts, self.at())));
                        lemma_structs_unique_push(before, d);
                        lemma_defs_prefix_step(defs_view(before), d@, defs_at(ts, self.at()));
                    }
                    program.definitions.push(d);
                    proof {
                        assert(defs_view(program.definitions@) =~= defs_view(before).push(d@));
                    }
                },
                Err(e) => return Err(e),
            }
        }
    }
}

proof fn lemma_defs_prefix_step(
    before: Seq<DefView>,
    d: DefView,
    rest: Result<Seq<DefView>, (ErrorKind, int)>,
)
    ensures
        defs_with_prefix(before, defs_with_prefix(seq![d], rest)) == defs_with_prefix(
            before.push(d),
            rest,
        ),
{
    if rest is Ok {
        assert(before + (seq![d] + rest->Ok_0) =~= before.push(d) + rest->Ok_0);
    }
}

/// `p` put in front of the definitions of a successful result.
pub open spec fn defs_with_prefix(p: Seq<DefView>, r: Result<Seq<DefView>, (ErrorKind, int)>) -> Result<
    Seq<DefView>,
    (ErrorKind, int),
> {
    match r {
        Ok(rest) => Ok(p + rest),
        Err(e) => Err(e),
    }
}

} // verus!

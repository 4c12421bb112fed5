use vstd::prelude::*;

use crate::ast::{lemma_stmt_models_push, stmt_models, Expr, ExprModel, Stmt, StmtModel};
use crate::error::{error, ErrorKind, LoxError};
use crate::scanner::models;
use crate::tokens::{Token, TokenModel, TokenType};

verus! {

/// The outcome of parsing from a position: what was built and the position
/// after it, or the problem and the position where it was found.
pub type Parsed<T> = Result<(T, int), (LoxError, int)>;

// The grammar functions below compare positions before some recursive calls
// (`q >= p`, `q > p`, ...). Parsing never moves backwards and every success
// consumes a token, so those tests always hold; they are written out only so
// that termination is evident from each definition alone.

/// A token sequence the parser can walk: it ends with the end marker.
pub open spec fn well_formed(toks: Seq<TokenModel>) -> bool {
    toks.len() > 0 && toks.last().token_type == TokenType::Eof
}

/// The token at `p`; the end marker past the end.
pub open spec fn tok(toks: Seq<TokenModel>, p: int) -> TokenModel {
    if 0 <= p < toks.len() {
        toks[p]
    } else {
        toks.last()
    }
}

pub open spec fn kind(toks: Seq<TokenModel>, p: int) -> TokenType {
    tok(toks, p).token_type
}

pub open spec fn fail<T>(toks: Seq<TokenModel>, p: int, k: ErrorKind) -> Parsed<T> {
    Err((LoxError { line: tok(toks, p).line as usize, kind: k }, p))
}

/// The operators of the binary precedence levels: equality, comparison,
/// term and factor, from loosest to tightest.
pub open spec fn level_op(level: nat, k: TokenType) -> bool {
    if level == 0 {
        k == TokenType::BangEqual || k == TokenType::EqualEqual
    } else if level == 1 {
        k == TokenType::Greater || k == TokenType::GreaterEqual || k == TokenType::Less || k
            == TokenType::LessEqual
    } else if level == 2 {
        k == TokenType::Plus || k == TokenType::Minus
    } else {
        k == TokenType::Slash || k == TokenType::Star
    }
}

pub open spec fn is_literal_kind(k: TokenType) -> bool {
    k == TokenType::True || k == TokenType::False || k == TokenType::Nil || k == TokenType::Number
        || k == TokenType::String
}

/// How many tokens are left from `p` on.
pub open spec fn remaining(toks: Seq<TokenModel>, p: int) -> nat {
    if p < toks.len() {
        (toks.len() - p) as nat
    } else {
        0
    }
}

/// Orders the binary levels for termination: each level below the one
/// looser than it, and all of them above `unary`.
pub open spec fn binary_rank(level: nat) -> nat {
    if level >= 4 {
        12
    } else {
        (20 - 2 * level) as nat
    }
}

/// Orders the rest of a chain just below the chain itself.
pub open spec fn rest_rank(level: nat) -> nat {
    if level >= 4 {
        0
    } else {
        (19 - 2 * level) as nat
    }
}

/// `expression → assignment`.
pub open spec fn expression(toks: Seq<TokenModel>, p: int) -> Parsed<ExprModel>
    decreases remaining(toks, p) * 64 + 30nat,
{
    assignment(toks, p)
}

/// `assignment → equality ( "=" assignment )?`, where the left side must be
/// a variable.
pub open spec fn assignment(toks: Seq<TokenModel>, p: int) -> Parsed<ExprModel>
    decreases remaining(toks, p) * 64 + 29nat,
{
    match binary(toks, p, 0) {
        Ok((left, q)) => if kind(toks, q) == TokenType::Equal && p <= q < toks.len() {
            match assignment(toks, q + 1) {
                Ok((value, r)) => match left {
                    ExprModel::Var(name) => Ok((ExprModel::Assignment(name, Box::new(value)), r)),
                    _ => Err(
                        (
                            LoxError {
                                line: tok(toks, q).line as usize,
                                kind: ErrorKind::InvalidAssignmentTarget,
                            },
                            r,
                        ),
                    ),
                },
                Err(e) => Err(e),
            }
        } else {
            Ok((left, q))
        },
        Err(e) => Err(e),
    }
}

/// A left-associative chain of operators of one precedence level; level 4
/// is `unary`.
pub open spec fn binary(toks: Seq<TokenModel>, p: int, level: nat) -> Parsed<ExprModel>
    decreases remaining(toks, p) * 64 + binary_rank(level),
{
    if level >= 4 {
        unary(toks, p)
    } else {
        match binary(toks, p, level + 1) {
            Ok((left, q)) => if q >= p {
                binary_rest(toks, q, level, left)
            } else {
                Ok((left, q))
            },
            Err(e) => Err(e),
        }
    }
}

/// The rest of a chain at `level`, folded onto `left`.
pub open spec fn binary_rest(toks: Seq<TokenModel>, at: int, level: nat, left: ExprModel) -> Parsed<
    ExprModel,
>
    decreases remaining(toks, at) * 64 + rest_rank(level),
{
    if level < 4 && level_op(level, kind(toks, at)) && at < toks.len() {
        match binary(toks, at + 1, level + 1) {
            Ok((right, r)) => if r > at {
                binary_rest(
                    toks,
                    r,
                    level,
                    ExprModel::Binary(Box::new(left), tok(toks, at), Box::new(right)),
                )
            } else {
                Ok((left, r))
            },
            Err(e) => Err(e),
        }
    } else {
        Ok((left, at))
    }
}

/// `unary → ( "!" | "-" ) unary | primary`.
pub open spec fn unary(toks: Seq<TokenModel>, p: int) -> Parsed<ExprModel>
    decreases remaining(toks, p) * 64 + 11nat,
{
    let k = kind(toks, p);
    if (k == TokenType::Bang || k == TokenType::Minus) && p < toks.len() {
        match unary(toks, p + 1) {
            Ok((right, q)) => Ok((ExprModel::Unary(tok(toks, p), Box::new(right)), q)),
            Err(e) => Err(e),
        }
    } else {
        primary(toks, p)
    }
}

/// `primary → literal | identifier | "(" expression ")"`.
pub open spec fn primary(toks: Seq<TokenModel>, p: int) -> Parsed<ExprModel>
    decreases remaining(toks, p) * 64 + 10nat,
{
    let k = kind(toks, p);
    if is_literal_kind(k) {
        Ok((ExprModel::Literal(tok(toks, p)), p + 1))
    } else if k == TokenType::Identifier {
        Ok((ExprModel::Var(tok(toks, p)), p + 1))
    } else if k == TokenType::LeftParen && p < toks.len() {
        match expression(toks, p + 1) {
            Ok((inner, q)) => if kind(toks, q) == TokenType::RightParen {
                Ok((ExprModel::Grouping(Box::new(inner)), q + 1))
            } else {
                fail(toks, q, ErrorKind::ExpectRightParen)
            },
            Err(e) => Err(e),
        }
    } else {
        fail(toks, p, ErrorKind::ExpectExpression)
    }
}

/// `ident ";"` or `ident "=" expression ";"`, after the `var` keyword.
pub open spec fn var_declaration(toks: Seq<TokenModel>, p: int) -> Parsed<StmtModel>
    decreases remaining(toks, p) * 64 + 8nat,
{
    if kind(toks, p) != TokenType::Identifier {
        fail(toks, p, ErrorKind::ExpectIdentifier)
    } else if kind(toks, p + 1) == TokenType::Equal {
        match expression(toks, p + 2) {
            Ok((init, q)) => if kind(toks, q) == TokenType::Semicolon {
                Ok((StmtModel::InitialisedVar(tok(toks, p), init), q + 1))
            } else {
                fail(toks, q, ErrorKind::ExpectSemicolon)
            },
            Err(e) => Err(e),
        }
    } else if kind(toks, p + 1) == TokenType::Semicolon {
        Ok((StmtModel::Var(tok(toks, p)), p + 2))
    } else {
        fail(toks, p + 1, ErrorKind::ExpectSemicolon)
    }
}

/// `declaration → "var" var_declaration | statement`.
pub open spec fn declaration(toks: Seq<TokenModel>, p: int) -> Parsed<StmtModel>
    decreases remaining(toks, p) * 64 + 9nat,
{
    if kind(toks, p) == TokenType::Var && p < toks.len() {
        var_declaration(toks, p + 1)
    } else {
        statement(toks, p)
    }
}

/// An expression followed by the `;` that ends its statement.
pub open spec fn terminated(toks: Seq<TokenModel>, e: Parsed<ExprModel>, print: bool) -> Parsed<
    StmtModel,
> {
    match e {
        Ok((x, q)) => if kind(toks, q) == TokenType::Semicolon {
            Ok((if print { StmtModel::Print(x) } else { StmtModel::Expression(x) }, q + 1))
        } else {
            fail(toks, q, ErrorKind::ExpectSemicolon)
        },
        Err(e) => Err(e),
    }
}

/// `statement → "print" expression ";" | "{" block | "if" "(" expression ")"
/// statement ( "else" statement )? | "while" "(" expression ")" statement |
/// expression ";"`.
pub open spec fn statement(toks: Seq<TokenModel>, p: int) -> Parsed<StmtModel>
    decreases remaining(toks, p) * 64 + 7nat,
{
    let k = kind(toks, p);
    if p >= toks.len() {
        terminated(toks, expression(toks, p), false)
    } else if k == TokenType::Print {
        terminated(toks, expression(toks, p + 1), true)
    } else if k == TokenType::LeftBrace {
        match block(toks, p + 1, Seq::empty()) {
            Ok((body, q)) => Ok((StmtModel::Block(body), q)),
            Err(e) => Err(e),
        }
    } else if k == TokenType::If || k == TokenType::While {
        conditional(toks, p)
    } else {
        terminated(toks, expression(toks, p), false)
    }
}

/// `"if" "(" expression ")" statement ( "else" statement )?` or
/// `"while" "(" expression ")" statement`, for the keyword at `p`.
pub open spec fn conditional(toks: Seq<TokenModel>, p: int) -> Parsed<StmtModel>
    decreases remaining(toks, p) * 64 + 6nat,
{
    let k = kind(toks, p);
    if kind(toks, p + 1) != TokenType::LeftParen {
        fail(toks, p + 1, ErrorKind::ExpectLeftParen)
    } else {
        match expression(toks, p + 2) {
            Ok((cond, q)) => if kind(toks, q) != TokenType::RightParen {
                fail(toks, q, ErrorKind::ExpectRightParen)
            } else if q < p {
                fail(toks, q, ErrorKind::ExpectRightParen)
            } else {
                match statement(toks, q + 1) {
                    Ok((body, r)) => if k == TokenType::While {
                        Ok((StmtModel::While(cond, Box::new(body)), r))
                    } else if kind(toks, r) == TokenType::Else && p <= r < toks.len() {
                        match statement(toks, r + 1) {
                            Ok((other, t)) => Ok(
                                (StmtModel::If(cond, Box::new(body), Some(Box::new(other))), t),
                            ),
                            Err(e) => Err(e),
                        }
                    } else {
                        Ok((StmtModel::If(cond, Box::new(body), None), r))
                    },
                    Err(e) => Err(e),
                }
            },
            Err(e) => Err(e),
        }
    }
}

/// The declarations of a block up to its closing brace, after those in `acc`.
pub open spec fn block(toks: Seq<TokenModel>, p: int, acc: Seq<StmtModel>) -> Parsed<
    Seq<StmtModel>,
>
    decreases remaining(toks, p) * 64 + 10nat,
{
    if p >= toks.len() || kind(toks, p) == TokenType::Eof {
        fail(toks, p, ErrorKind::ExpectRightBrace)
    } else if kind(toks, p) == TokenType::RightBrace {
        Ok((acc, p + 1))
    } else {
        match declaration(toks, p) {
            Ok((s, q)) => if q > p {
                block(toks, q, acc.push(s))
            } else {
                fail(toks, q, ErrorKind::ExpectRightBrace)
            },
            Err(e) => Err(e),
        }
    }
}

pub open spec fn is_statement_start(k: TokenType) -> bool {
    k == TokenType::Class || k == TokenType::Fun || k == TokenType::Var || k == TokenType::For
        || k == TokenType::If || k == TokenType::While || k == TokenType::Print || k
        == TokenType::Return
}

/// From `r` on, the first position just after a `;`, or at a keyword that
/// starts a statement, or at the end marker.
pub open spec fn boundary_from(toks: Seq<TokenModel>, r: int) -> int
    decreases remaining(toks, r),
{
    if r >= toks.len() || kind(toks, r) == TokenType::Eof || kind(toks, r - 1)
        == TokenType::Semicolon || is_statement_start(kind(toks, r)) {
        r
    } else {
        boundary_from(toks, r + 1)
    }
}

/// Where parsing resumes after a problem found at `q`: the token at `q` is
/// dropped, then tokens up to the next statement boundary.
pub open spec fn synchronize(toks: Seq<TokenModel>, q: int) -> int {
    if q >= toks.len() || kind(toks, q) == TokenType::Eof {
        q
    } else {
        boundary_from(toks, q + 1)
    }
}

/// The statements of a program from `p` on, and the problems found; after
/// each problem parsing resumes at the next statement boundary.
pub open spec fn program(toks: Seq<TokenModel>, p: int) -> (Seq<StmtModel>, Seq<LoxError>)
    decreases remaining(toks, p),
{
    if p >= toks.len() || kind(toks, p) == TokenType::Eof {
        (Seq::empty(), Seq::empty())
    } else {
        match declaration(toks, p) {
            Ok((s, q)) => if q > p {
                let rest = program(toks, q);
                (seq![s] + rest.0, rest.1)
            } else {
                (seq![s], Seq::empty())
            },
            Err((e, q)) => {
                let n = synchronize(toks, q);
                if n > p {
                    let rest = program(toks, n);
                    (rest.0, seq![e] + rest.1)
                } else {
                    (Seq::empty(), seq![e])
                }
            },
        }
    }
}

proof fn lemma_boundary_from(toks: Seq<TokenModel>, r: int)
    ensures
        boundary_from(toks, r) >= r,
    decreases remaining(toks, r),
{
    if !(r >= toks.len() || kind(toks, r) == TokenType::Eof || kind(toks, r - 1)
        == TokenType::Semicolon || is_statement_start(kind(toks, r))) {
        lemma_boundary_from(toks, r + 1);
    }
}

/// `r` is what the exec parser made of the outcome `s`, where it now stands
/// at `curr`.
pub open spec fn agrees<T: View>(r: Result<T, LoxError>, curr: int, s: Parsed<T::V>) -> bool {
    match s {
        Ok((m, q)) => r is Ok && r->Ok_0@ == m && curr == q,
        Err((e, q)) => r is Err && r->Err_0 == e && curr == q,
    }
}

/// Builds statements from tokens by recursive descent, one token of
/// lookahead at a time.
pub struct Parser {
    tokens: Vec<Token>,
    curr: usize,
}

fn is_level_op(level: usize, k: TokenType) -> (r: bool)
    ensures
        r == level_op(level as nat, k),
{
    if level == 0 {
        k == TokenType::BangEqual || k == TokenType::EqualEqual
    } else if level == 1 {
        k == TokenType::Greater || k == TokenType::GreaterEqual || k == TokenType::Less || k
            == TokenType::LessEqual
    } else if level == 2 {
        k == TokenType::Plus || k == TokenType::Minus
    } else {
        k == TokenType::Slash || k == TokenType::Star
    }
}

fn is_statement_start_kind(k: TokenType) -> (r: bool)
    ensures
        r == is_statement_start(k),
{
    k == TokenType::Class || k == TokenType::Fun || k == TokenType::Var || k == TokenType::For
        || k == TokenType::If || k == TokenType::While || k == TokenType::Print || k
        == TokenType::Return
}

impl Parser {
    /// The models of the tokens being parsed.
    pub closed spec fn toks(&self) -> Seq<TokenModel> {
        models(self.tokens@)
    }

    /// The position of the next token.
    pub closed spec fn pos(&self) -> int {
        self.curr as int
    }

    pub closed spec fn wf(&self) -> bool {
        well_formed(self.toks()) && self.curr < self.tokens@.len()
    }

    /// `after` parses the same tokens as `before`, no further back.
    spec fn stays(before: Parser, after: Parser) -> bool {
        after.wf() && after.tokens == before.tokens && after.curr >= before.curr
    }

    pub fn new(tokens: Vec<Token>) -> (r: Parser)
        requires
            well_formed(models(tokens@)),
        ensures
            r.wf(),
            r.toks() == models(tokens@),
            r.pos() == 0,
    {
        Parser { tokens, curr: 0 }
    }

    fn peek_kind(&self) -> (r: TokenType)
        requires
            self.wf(),
        ensures
            r == kind(self.toks(), self.pos()),
    {
        self.tokens[self.curr].token_type
    }

    fn peek_line(&self) -> (r: usize)
        requires
            self.wf(),
        ensures
            r == tok(self.toks(), self.pos()).line,
    {
        self.tokens[self.curr].line
    }

    fn peek(&self) -> (r: Token)
        requires
            self.wf(),
        ensures
            r@ == tok(self.toks(), self.pos()),
    {
        self.tokens[self.curr].duplicate()
    }

    fn is_at_end(&self) -> (r: bool)
        requires
            self.wf(),
        ensures
            r == (kind(self.toks(), self.pos()) == TokenType::Eof),
    {
        self.peek_kind() == TokenType::Eof
    }

    fn previous(&self) -> (r: Token)
        requires
            self.wf(),
            self.curr >= 1,
        ensures
            r@ == tok(self.toks(), self.pos() - 1),
    {
        self.tokens[self.curr - 1].duplicate()
    }

    /// Consumes the next token, unless it is the end marker.
    fn advance(&mut self) -> (r: Token)
        requires
            old(self).wf(),
        ensures
            Self::stays(*old(self), *final(self)),
            r@ == tok(old(self).toks(), old(self).pos()),
            final(self).pos() == if kind(old(self).toks(), old(self).pos()) == TokenType::Eof {
                old(self).pos()
            } else {
                old(self).pos() + 1
            },
    {
        if self.is_at_end() {
            return self.peek();
        }
        let n = self.tokens.len();
        assert(self.toks()[self.pos()] == self.tokens@[self.pos()]@);
        assert(self.toks().last() == self.tokens@[self.tokens@.len() - 1]@);
        self.curr = self.curr + 1;
        self.previous()
    }

    fn expression(&mut self) -> (r: Result<Expr, LoxError>)
        requires
            old(self).wf(),
        ensures
            Self::stays(*old(self), *final(self)),
            r is Ok ==> final(self).curr > old(self).curr,
            agrees(r, final(self).pos(), expression(old(self).toks(), old(self).pos())),
        decreases remaining(old(self).toks(), old(self).pos()) * 64 + 30,
    {
        self.assignment()
    }

    fn assignment(&mut self) -> (r: Result<Expr, LoxError>)
        requires
            old(self).wf(),
        ensures
            Self::stays(*old(self), *final(self)),
            r is Ok ==> final(self).curr > old(self).curr,
            agrees(r, final(self).pos(), assignment(old(self).toks(), old(self).pos())),
        decreases remaining(old(self).toks(), old(self).pos()) * 64 + 29,
    {
        let left = match self.binary(0) {
            Ok(e) => e,
            Err(e) => return Err(e),
        };
        if self.peek_kind() == TokenType::Equal {
            let line = self.peek_line();
            self.advance();
            let value = match self.assignment() {
                Ok(v) => v,
                Err(e) => return Err(e),
            };
            match left {
                Expr::Var(name) => Ok(Expr::Assignment(name, Box::new(value))),
                _ => Err(error(line, ErrorKind::InvalidAssignmentTarget)),
            }
        } else {
            Ok(left)
        }
    }

    /// A left-associative chain of operators of one precedence level
    /// (equality, comparison, term, factor); level 4 is `unary`.
    fn binary(&mut self, level: usize) -> (r: Result<Expr, LoxError>)
        requires
            old(self).wf(),
            level <= 4,
        ensures
            Self::stays(*old(self), *final(self)),
            r is Ok ==> final(self).curr > old(self).curr,
            agrees(r, final(self).pos(), binary(old(self).toks(), old(self).pos(), level as nat)),
        decreases remaining(old(self).toks(), old(self).pos()) * 64 + binary_rank(level as nat),
    {
        if level >= 4 {
            return self.unary();
        }
        let ghost toks = self.toks();
        let ghost p = self.pos();
        let ghost start = *self;
        let mut expr = match self.binary(level + 1) {
            Ok(e) => e,
            Err(e) => return Err(e),
        };
        while is_level_op(level, self.peek_kind())
            invariant
                Self::stays(start, *self),
                self.curr > start.curr,
                toks == self.toks(),
                p == start.pos(),
                toks == old(self).toks(),
                p == old(self).pos(),
                start == *old(self),
                level < 4,
                binary_rest(toks, self.pos(), level as nat, expr@) == binary(toks, p, level as nat),
            decreases remaining(toks, self.pos()),
        {
            let ghost q = self.pos();
            let op = self.advance();
            assert(remaining(toks, self.pos()) < remaining(toks, p));
            let right = match self.binary(level + 1) {
                Ok(e) => e,
                Err(e) => return Err(e),
            };
            expr = Expr::Binary { left: Box::new(expr), op, right: Box::new(right) };
        }
        Ok(expr)
    }

    fn unary(&mut self) -> (r: Result<Expr, LoxError>)
        requires
            old(self).wf(),
        ensures
            Self::stays(*old(self), *final(self)),
            r is Ok ==> final(self).curr > old(self).curr,
            agrees(r, final(self).pos(), unary(old(self).toks(), old(self).pos())),
        decreases remaining(old(self).toks(), old(self).pos()) * 64 + 11,
    {
        let k = self.peek_kind();
        if k == TokenType::Bang || k == TokenType::Minus {
            let op = self.advance();
            let right = match self.unary() {
                Ok(e) => e,
                Err(e) => return Err(e),
            };
            return Ok(Expr::Unary { op, right: Box::new(right) });
        }
        self.primary()
    }

    fn primary(&mut self) -> (r: Result<Expr, LoxError>)
        requires
            old(self).wf(),
        ensures
            Self::stays(*old(self), *final(self)),
            r is Ok ==> final(self).curr > old(self).curr,
            agrees(r, final(self).pos(), primary(old(self).toks(), old(self).pos())),
        decreases remaining(old(self).toks(), old(self).pos()) * 64 + 10,
    {
        let k = self.peek_kind();
        if k == TokenType::True || k == TokenType::False || k == TokenType::Nil || k
            == TokenType::Number || k == TokenType::String {
            Ok(Expr::Literal(self.advance()))
        } else if k == TokenType::Identifier {
            Ok(Expr::Var(self.advance()))
        } else if k == TokenType::LeftParen {
            self.advance();
            let inner = match self.expression() {
                Ok(e) => e,
                Err(e) => return Err(e),
            };
            if self.peek_kind() == TokenType::RightParen {
                self.advance();
                Ok(Expr::Grouping(Box::new(inner)))
            } else {
                Err(error(self.peek_line(), ErrorKind::ExpectRightParen))
            }
        } else {
            Err(error(self.peek_line(), ErrorKind::ExpectExpression))
        }
    }

    fn variable_declaration(&mut self) -> (r: Result<Stmt, LoxError>)
        requires
            old(self).wf(),
        ensures
            Self::stays(*old(self), *final(self)),
            r is Ok ==> final(self).curr > old(self).curr,
            agrees(r, final(self).pos(), var_declaration(old(self).toks(), old(self).pos())),
    {
        if self.peek_kind() != TokenType::Identifier {
            return Err(error(self.peek_line(), ErrorKind::ExpectIdentifier));
        }
        let name = self.advance();
        if self.peek_kind() == TokenType::Equal {
            self.advance();
            let init = match self.expression() {
                Ok(e) => e,
                Err(e) => return Err(e),
            };
            if self.peek_kind() == TokenType::Semicolon {
                self.advance();
                Ok(Stmt::InitialisedVar(name, Box::new(init)))
            } else {
                Err(error(self.peek_line(), ErrorKind::ExpectSemicolon))
            }
        } else if self.peek_kind() == TokenType::Semicolon {
            self.advance();
            Ok(Stmt::Var(name))
        } else {
            Err(error(self.peek_line(), ErrorKind::ExpectSemicolon))
        }
    }

    fn declaration(&mut self) -> (r: Result<Stmt, LoxError>)
        requires
            old(self).wf(),
        ensures
            Self::stays(*old(self), *final(self)),
            r is Ok ==> final(self).curr > old(self).curr,
            agrees(r, final(self).pos(), declaration(old(self).toks(), old(self).pos())),
        decreases remaining(old(self).toks(), old(self).pos()) * 64 + 9,
    {
        if self.peek_kind() == TokenType::Var {
            self.advance();
            return self.variable_declaration();
        }
        self.statement()
    }

    /// Parses an expression and the `;` after it.
    fn terminated(&mut self, print: bool) -> (r: Result<Stmt, LoxError>)
        requires
            old(self).wf(),
        ensures
            Self::stays(*old(self), *final(self)),
            r is Ok ==> final(self).curr > old(self).curr,
            agrees(
                r,
                final(self).pos(),
                terminated(
                    old(self).toks(),
                    expression(old(self).toks(), old(self).pos()),
                    print,
                ),
            ),
    {
        let e = match self.expression() {
            Ok(e) => e,
            Err(e) => return Err(e),
        };
        if self.peek_kind() == TokenType::Semicolon {
            self.advance();
            if print {
                Ok(Stmt::Print(Box::new(e)))
            } else {
                Ok(Stmt::Expression(Box::new(e)))
            }
        } else {
            Err(error(self.peek_line(), ErrorKind::ExpectSemicolon))
        }
    }

    fn statement(&mut self) -> (r: Result<Stmt, LoxError>)
        requires
            old(self).wf(),
        ensures
            Self::stays(*old(self), *final(self)),
            r is Ok ==> final(self).curr > old(self).curr,
            agrees(r, final(self).pos(), statement(old(self).toks(), old(self).pos())),
        decreases remaining(old(self).toks(), old(self).pos()) * 64 + 7,
    {
        let k = self.peek_kind();
        if k == TokenType::Print {
            self.advance();
            self.terminated(true)
        } else if k == TokenType::LeftBrace {
            self.advance();
            match self.block() {
                Ok(body) => {
                    let r = Stmt::Block(body);
                    Ok(r)
                },
                Err(e) => Err(e),
            }
        } else if k == TokenType::If || k == TokenType::While {
            self.conditional()
        } else {
            self.terminated(false)
        }
    }

    fn conditional(&mut self) -> (r: Result<Stmt, LoxError>)
        requires
            old(self).wf(),
            kind(old(self).toks(), old(self).pos()) == TokenType::If || kind(
                old(self).toks(),
                old(self).pos(),
            ) == TokenType::While,
        ensures
            Self::stays(*old(self), *final(self)),
            r is Ok ==> final(self).curr > old(self).curr,
            agrees(r, final(self).pos(), conditional(old(self).toks(), old(self).pos())),
        decreases remaining(old(self).toks(), old(self).pos()) * 64 + 6,
    {
        let k = self.peek_kind();
        self.advance();
        if self.peek_kind() != TokenType::LeftParen {
            return Err(error(self.peek_line(), ErrorKind::ExpectLeftParen));
        }
        self.advance();
        let cond = match self.expression() {
            Ok(e) => e,
            Err(e) => return Err(e),
        };
        if self.peek_kind() != TokenType::RightParen {
            return Err(error(self.peek_line(), ErrorKind::ExpectRightParen));
        }
        self.advance();
        let body = match self.statement() {
            Ok(s) => s,
            Err(e) => return Err(e),
        };
        if k == TokenType::While {
            Ok(Stmt::While(Box::new(cond), Box::new(body)))
        } else if self.peek_kind() == TokenType::Else {
            self.advance();
            let other = match self.statement() {
                Ok(s) => s,
                Err(e) => return Err(e),
            };
            Ok(Stmt::If(Box::new(cond), Box::new(body), Some(Box::new(other))))
        } else {
            Ok(Stmt::If(Box::new(cond), Box::new(body), None))
        }
    }

    /// The declarations of a block, after its `{`, up to its `}`.
    fn block(&mut self) -> (r: Result<Vec<Stmt>, LoxError>)
        requires
            old(self).wf(),
        ensures
            Self::stays(*old(self), *final(self)),
            r is Ok ==> final(self).curr > old(self).curr,
            match block(old(self).toks(), old(self).pos(), Seq::empty()) {
                Ok((body, q)) => r is Ok && stmt_models(r->Ok_0@) == body && final(self).pos()
                    == q,
                Err((e, q)) => r is Err && r->Err_0 == e && final(self).pos() == q,
            },
        decreases remaining(old(self).toks(), old(self).pos()) * 64 + 10,
    {
        let ghost toks = self.toks();
        let ghost p = self.pos();
        let mut body: Vec<Stmt> = Vec::new();
        loop
            invariant
                Self::stays(*old(self), *self),
                toks == old(self).toks(),
                p == old(self).pos(),
                block(toks, self.pos(), stmt_models(body@)) == block(toks, p, Seq::empty()),
            decreases remaining(toks, self.pos()),
        {
            let k = self.peek_kind();
            if k == TokenType::Eof {
                return Err(error(self.peek_line(), ErrorKind::ExpectRightBrace));
            }
            if k == TokenType::RightBrace {
                self.advance();
                return Ok(body);
            }
            let ghost q = self.pos();
            let s = match self.declaration() {
                Ok(s) => s,
                Err(e) => return Err(e),
            };
            proof {
                lemma_stmt_models_push(body@, s);
            }
            body.push(s);
        }
    }

    /// Drops the token where a problem was found, then tokens up to the next
    /// statement boundary.
    fn synchronize(&mut self)
        requires
            old(self).wf(),
        ensures
            Self::stays(*old(self), *final(self)),
            final(self).pos() == synchronize(old(self).toks(), old(self).pos()),
    {
        let ghost toks = self.toks();
        if self.is_at_end() {
            return;
        }
        self.advance();
        while !self.is_at_end()
            invariant
                Self::stays(*old(self), *self),
                toks == old(self).toks(),
                self.curr >= 1,
                boundary_from(toks, self.pos()) == synchronize(toks, old(self).pos()),
            decreases remaining(toks, self.pos()),
        {
            if self.previous().token_type == TokenType::Semicolon {
                return;
            }
            if is_statement_start_kind(self.peek_kind()) {
                return;
            }
            self.advance();
        }
    }

    /// Parses the whole program. On success, the statements; otherwise every
    /// problem found, parsing having resumed after each at the next
    /// statement boundary. Both as `program` gives them.
    pub fn parse(&mut self) -> (r: Result<Vec<Stmt>, Vec<LoxError>>)
        requires
            old(self).wf(),
        ensures
            ({
                let (stmts, errors) = program(old(self).toks(), old(self).pos());
                match r {
                    Ok(v) => errors.len() == 0 && stmt_models(v@) == stmts,
                    Err(v) => errors.len() > 0 && v@ == errors,
                }
            }),
    {
        let ghost toks = self.toks();
        let ghost p0 = self.pos();
        let mut stmts: Vec<Stmt> = Vec::new();
        let mut errors: Vec<LoxError> = Vec::new();
        while !self.is_at_end()
            invariant
                Self::stays(*old(self), *self),
                toks == old(self).toks(),
                p0 == old(self).pos(),
                ({
                    let rest = program(toks, self.pos());
                    let all = program(toks, p0);
                    stmt_models(stmts@) + rest.0 == all.0 && errors@ + rest.1 == all.1
                }),
            decreases remaining(toks, self.pos()),
        {
            let ghost q = self.pos();
            let ghost before_stmts = stmt_models(stmts@);
            let ghost before_errors = errors@;
            match self.declaration() {
                Ok(s) => {
                    proof {
                        lemma_stmt_models_push(stmts@, s);
                    }
                    stmts.push(s);
                    proof {
                        let rest = program(toks, self.pos());
                        assert(before_stmts + (seq![s@] + rest.0) =~= stmt_models(stmts@)
                            + rest.0);
                    }
                },
                Err(e) => {
                    errors.push(e);
                    let ghost at = self.pos();
                    proof {
                        lemma_boundary_from(toks, at + 1);
                    }
                    self.synchronize();
                    proof {
                        let rest = program(toks, self.pos());
                        assert(before_errors + (seq![e] + rest.1) =~= errors@ + rest.1);
                    }
                },
            }
        }
        proof {
            assert(stmt_models(stmts@) + Seq::empty() =~= stmt_models(stmts@));
            assert(errors@ + Seq::empty() =~= errors@);
        }
        if errors.len() == 0 {
            Ok(stmts)
        } else {
            Err(errors)
        }
    }
}

} // verus!

verus! {

/// A number literal followed by no operator of `level` or tighter parses
/// at `level` as that literal alone.
proof fn lemma_number_atom(toks: Seq<TokenModel>, p: int, level: nat)
    requires
        0 <= p < toks.len(),
        kind(toks, p) == TokenType::Number,
        level <= 4,
        forall|l: nat| level <= l < 4 ==> !#[trigger] level_op(l, kind(toks, p + 1)),
    ensures
        binary(toks, p, level) == Ok::<(ExprModel, int), (LoxError, int)>(
            (ExprModel::Literal(tok(toks, p)), p + 1),
        ),
    decreases 4 - level,
{
    let lit = ExprModel::Literal(tok(toks, p));
    assert(primary(toks, p) == Ok::<(ExprModel, int), (LoxError, int)>((lit, p + 1)));
    assert(unary(toks, p) == Ok::<(ExprModel, int), (LoxError, int)>((lit, p + 1)));
    if level < 4 {
        lemma_number_atom(toks, p, level + 1);
        assert(!level_op(level, kind(toks, p + 1)));
        assert(binary_rest(toks, p + 1, level, lit) == Ok::<(ExprModel, int), (LoxError, int)>(
            (lit, p + 1),
        ));
    }
}

/// Multiplication binds tighter than addition: the tokens `a + b * c` (or
/// `-` and `/` in the same places), followed by a `;`, form the expression
/// `a + (b * c)`.
pub proof fn product_binds_tighter_than_sum(toks: Seq<TokenModel>)
    requires
        toks.len() >= 6,
        toks[0].token_type == TokenType::Number,
        toks[1].token_type == TokenType::Plus || toks[1].token_type == TokenType::Minus,
        toks[2].token_type == TokenType::Number,
        toks[3].token_type == TokenType::Star || toks[3].token_type == TokenType::Slash,
        toks[4].token_type == TokenType::Number,
        toks[5].token_type == TokenType::Semicolon,
    ensures
        expression(toks, 0) == Ok::<(ExprModel, int), (LoxError, int)>(
            (
                ExprModel::Binary(
                    Box::new(ExprModel::Literal(toks[0])),
                    toks[1],
                    Box::new(
                        ExprModel::Binary(
                            Box::new(ExprModel::Literal(toks[2])),
                            toks[3],
                            Box::new(ExprModel::Literal(toks[4])),
                        ),
                    ),
                ),
                5,
            ),
        ),
{
    let a = ExprModel::Literal(toks[0]);
    let b = ExprModel::Literal(toks[2]);
    let c = ExprModel::Literal(toks[4]);
    let bc = ExprModel::Binary(Box::new(b), toks[3], Box::new(c));
    let abc = ExprModel::Binary(Box::new(a), toks[1], Box::new(bc));
    lemma_number_atom(toks, 0, 3);
    lemma_number_atom(toks, 4, 4);
    lemma_number_atom(toks, 2, 4);
    assert(binary(toks, 2, 4) == Ok::<(ExprModel, int), (LoxError, int)>((b, 3)));
    assert(binary_rest(toks, 5, 3, bc) == Ok::<(ExprModel, int), (LoxError, int)>((bc, 5)));
    assert(binary_rest(toks, 3, 3, b) == Ok::<(ExprModel, int), (LoxError, int)>((bc, 5)));
    assert(binary(toks, 2, 3) == Ok::<(ExprModel, int), (LoxError, int)>((bc, 5)));
    assert(binary_rest(toks, 5, 2, abc) == Ok::<(ExprModel, int), (LoxError, int)>((abc, 5)));
    assert(binary_rest(toks, 1, 2, a) == Ok::<(ExprModel, int), (LoxError, int)>((abc, 5)));
    assert(binary(toks, 0, 2) == Ok::<(ExprModel, int), (LoxError, int)>((abc, 5)));
    assert(binary_rest(toks, 5, 1, abc) == Ok::<(ExprModel, int), (LoxError, int)>((abc, 5)));
    assert(binary(toks, 0, 1) == Ok::<(ExprModel, int), (LoxError, int)>((abc, 5)));
    assert(binary_rest(toks, 5, 0, abc) == Ok::<(ExprModel, int), (LoxError, int)>((abc, 5)));
    assert(binary(toks, 0, 0) == Ok::<(ExprModel, int), (LoxError, int)>((abc, 5)));
    assert(assignment(toks, 0) == Ok::<(ExprModel, int), (LoxError, int)>((abc, 5)));
}

} // verus!

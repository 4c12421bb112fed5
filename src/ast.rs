use vstd::prelude::*;

use crate::number::push_all;
use crate::tokens::{Token, TokenModel};

verus! {

/// An expression tree. Each node owns its children.
pub enum Expr {
    Binary { left: Box<Expr>, op: Token, right: Box<Expr> },
    Grouping(Box<Expr>),
    Literal(Token),
    Unary { op: Token, right: Box<Expr> },
    Var(Token),
    Assignment(Token, Box<Expr>),
}

/// The mathematical model of an expression tree.
pub enum ExprModel {
    Binary(Box<ExprModel>, TokenModel, Box<ExprModel>),
    Grouping(Box<ExprModel>),
    Literal(TokenModel),
    Unary(TokenModel, Box<ExprModel>),
    Var(TokenModel),
    Assignment(TokenModel, Box<ExprModel>),
}

impl View for Expr {
    type V = ExprModel;

    open spec fn view(&self) -> ExprModel
        decreases self,
    {
        match self {
            Expr::Binary { left, op, right } => ExprModel::Binary(
                Box::new((**left).view()),
                op@,
                Box::new((**right).view()),
            ),
            Expr::Grouping(inner) => ExprModel::Grouping(Box::new((**inner).view())),
            Expr::Literal(t) => ExprModel::Literal(t@),
            Expr::Unary { op, right } => ExprModel::Unary(op@, Box::new((**right).view())),
            Expr::Var(t) => ExprModel::Var(t@),
            Expr::Assignment(t, value) => ExprModel::Assignment(t@, Box::new((**value).view())),
        }
    }
}

/// A statement tree.
pub enum Stmt {
    Expression(Box<Expr>),
    Print(Box<Expr>),
    Var(Token),
    InitialisedVar(Token, Box<Expr>),
    Block(Vec<Stmt>),
    If(Box<Expr>, Box<Stmt>, Option<Box<Stmt>>),
    While(Box<Expr>, Box<Stmt>),
}

/// The mathematical model of a statement tree.
pub enum StmtModel {
    Expression(ExprModel),
    Print(ExprModel),
    Var(TokenModel),
    InitialisedVar(TokenModel, ExprModel),
    Block(Seq<StmtModel>),
    If(ExprModel, Box<StmtModel>, Option<Box<StmtModel>>),
    While(ExprModel, Box<StmtModel>),
}

impl View for Stmt {
    type V = StmtModel;

    open spec fn view(&self) -> StmtModel
        decreases self,
    {
        match self {
            Stmt::Expression(e) => StmtModel::Expression((**e)@),
            Stmt::Print(e) => StmtModel::Print((**e)@),
            Stmt::Var(t) => StmtModel::Var(t@),
            Stmt::InitialisedVar(t, e) => StmtModel::InitialisedVar(t@, (**e)@),
            Stmt::Block(body) => StmtModel::Block(stmt_models(body@)),
            Stmt::If(c, then_branch, else_branch) => StmtModel::If(
                (**c)@,
                Box::new((**then_branch).view()),
                match else_branch {
                    Some(s) => Some(Box::new((**s).view())),
                    None => None,
                },
            ),
            Stmt::While(c, body) => StmtModel::While((**c)@, Box::new((**body).view())),
        }
    }
}

/// The models of a sequence of statements.
pub open spec fn stmt_models(v: Seq<Stmt>) -> Seq<StmtModel>
    decreases v,
{
    if v.len() == 0 {
        Seq::empty()
    } else {
        stmt_models(v.drop_last()).push(v.last().view())
    }
}

pub proof fn lemma_stmt_models_push(v: Seq<Stmt>, s: Stmt)
    ensures
        stmt_models(v.push(s)) == stmt_models(v).push(s@),
{
    assert(v.push(s).drop_last() =~= v);
}

/// An expression in reverse Polish notation: operands first, each operator
/// after them, separated by spaces; groupings vanish, and an assignment is
/// its value, its name, then `=`.
pub open spec fn rpn(e: ExprModel) -> Seq<char>
    decreases e,
{
    match e {
        ExprModel::Grouping(inner) => rpn(*inner),
        ExprModel::Binary(l, op, r) => rpn(*l) + seq![' '] + rpn(*r) + seq![' '] + op.lexeme,
        ExprModel::Literal(t) => t.lexeme,
        ExprModel::Unary(op, r) => rpn(*r) + seq![' '] + op.lexeme,
        ExprModel::Var(t) => t.lexeme,
        ExprModel::Assignment(t, v) => rpn(*v) + seq![' '] + t.lexeme + seq![' ', '='],
    }
}

/// Relies on collecting characters into a `String` (`FromIterator<char>`):
/// the same characters in order.
#[verifier::external_body]
pub(crate) fn text_of(v: &Vec<char>) -> (r: String)
    ensures
        r@ == v@,
{
    v.iter().collect()
}

impl Expr {
    fn push_rpn(&self, out: &mut Vec<char>)
        ensures
            final(out)@ == old(out)@ + rpn(self@),
        decreases self,
    {
        let ghost start = out@;
        match self {
            Expr::Grouping(inner) => inner.push_rpn(out),
            Expr::Binary { left, op, right } => {
                left.push_rpn(out);
                out.push(' ');
                right.push_rpn(out);
                out.push(' ');
                push_all(out, &op.lexeme);
            },
            Expr::Literal(t) => push_all(out, &t.lexeme),
            Expr::Unary { op, right } => {
                right.push_rpn(out);
                out.push(' ');
                push_all(out, &op.lexeme);
            },
            Expr::Var(t) => push_all(out, &t.lexeme),
            Expr::Assignment(t, value) => {
                value.push_rpn(out);
                out.push(' ');
                push_all(out, &t.lexeme);
                out.push(' ');
                out.push('=');
            },
        }
        assert(out@ =~= start + rpn(self@));
    }

    /// This expression in reverse Polish notation (`rpn`).
    pub fn print_rpn(&self) -> (r: String)
        ensures
            r@ == rpn(self@),
    {
        let mut out: Vec<char> = Vec::new();
        self.push_rpn(&mut out);
        assert(out@ =~= rpn(self@));
        text_of(&out)
    }
}

} // verus!

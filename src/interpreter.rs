use vstd::prelude::*;

use crate::ast::{stmt_models, Expr, ExprModel, Stmt, StmtModel};
use crate::environment::{assign, define, lookup, pop_scope, push_scope, EnvModel, Environment};
use crate::error::{error, ErrorKind, LoxError};
use crate::number::{
    checked_add, checked_div, checked_mul, checked_neg, checked_sub, in_range, product, push_number,
    quotient, show_number,
};
use crate::scanner::chars_between;
use crate::tokens::{Token, TokenModel, TokenType};
use crate::value::{truthy, values_equal, Value, ValueModel};

verus! {

pub open spec fn runtime_error(t: TokenModel, kind: ErrorKind) -> LoxError {
    LoxError { line: t.line as usize, kind }
}

/// The constant a literal token stands for; a string literal's text is its
/// lexeme without the quotes.
pub open spec fn literal_value(t: TokenModel) -> ValueModel {
    if t.token_type == TokenType::Number {
        ValueModel::Number(t.value)
    } else if t.token_type == TokenType::String {
        ValueModel::String(
            if t.lexeme.len() >= 2 {
                t.lexeme.subrange(1, t.lexeme.len() - 1)
            } else {
                Seq::empty()
            },
        )
    } else if t.token_type == TokenType::True {
        ValueModel::Boolean(true)
    } else if t.token_type == TokenType::False {
        ValueModel::Boolean(false)
    } else {
        ValueModel::Nil
    }
}

/// A number, or the range error of `op` where it does not fit.
pub open spec fn number_result(op: TokenModel, x: int) -> Result<ValueModel, LoxError> {
    if in_range(x) {
        Ok(ValueModel::Number(x))
    } else {
        Err(runtime_error(op, ErrorKind::NumberOutOfRange))
    }
}

/// Prefix `-` negates a number; prefix `!` negates truthiness.
pub open spec fn unary_op(op: TokenModel, v: ValueModel) -> Result<ValueModel, LoxError> {
    if op.token_type == TokenType::Minus {
        match v {
            ValueModel::Number(n) => number_result(op, -n),
            _ => Err(runtime_error(op, ErrorKind::OperandMustBeNumber)),
        }
    } else {
        Ok(ValueModel::Boolean(!truthy(v)))
    }
}

pub open spec fn is_comparison(k: TokenType) -> bool {
    k == TokenType::Less || k == TokenType::LessEqual || k == TokenType::Greater || k
        == TokenType::GreaterEqual
}

pub open spec fn compare(k: TokenType, a: int, b: int) -> bool {
    if k == TokenType::Less {
        a < b
    } else if k == TokenType::LessEqual {
        a <= b
    } else if k == TokenType::Greater {
        a > b
    } else {
        a >= b
    }
}

/// A binary operator applied to two values. `+` adds numbers or joins
/// strings; `- * /` and the comparisons take numbers; `==` and `!=` take
/// anything.
pub open spec fn binary_op(op: TokenModel, a: ValueModel, b: ValueModel) -> Result<ValueModel, LoxError> {
    let k = op.token_type;
    if k == TokenType::EqualEqual {
        Ok(ValueModel::Boolean(values_equal(a, b)))
    } else if k == TokenType::BangEqual {
        Ok(ValueModel::Boolean(!values_equal(a, b)))
    } else if k == TokenType::Plus {
        match (a, b) {
            (ValueModel::Number(x), ValueModel::Number(y)) => number_result(op, x + y),
            (ValueModel::String(x), ValueModel::String(y)) => Ok(ValueModel::String(x + y)),
            _ => Err(runtime_error(op, ErrorKind::OperandsMustBeNumbersOrStrings)),
        }
    } else {
        match (a, b) {
            (ValueModel::Number(x), ValueModel::Number(y)) => if k == TokenType::Minus {
                number_result(op, x - y)
            } else if k == TokenType::Star {
                number_result(op, product(x, y))
            } else if k == TokenType::Slash {
                if y == 0 {
                    Err(runtime_error(op, ErrorKind::DivisionByZero))
                } else {
                    number_result(op, quotient(x, y))
                }
            } else {
                Ok(ValueModel::Boolean(compare(k, x, y)))
            },
            _ => Err(runtime_error(op, ErrorKind::OperandsMustBeNumbers)),
        }
    }
}

/// What evaluating `e` in `env` yields, and the scope chain after it.
pub open spec fn eval(e: ExprModel, env: EnvModel) -> (Result<ValueModel, LoxError>, EnvModel)
    decreases e,
{
    match e {
        ExprModel::Literal(t) => (Ok(literal_value(t)), env),
        ExprModel::Grouping(inner) => eval(*inner, env),
        ExprModel::Var(t) => match lookup(env, t.lexeme) {
            Some(v) => (Ok(v), env),
            None => (Err(runtime_error(t, ErrorKind::UndefinedVariable)), env),
        },
        ExprModel::Assignment(t, value) => {
            let (r, env1) = eval(*value, env);
            match r {
                Ok(v) => match assign(env1, t.lexeme, v) {
                    Some(env2) => (Ok(v), env2),
                    None => (Err(runtime_error(t, ErrorKind::UndefinedVariable)), env1),
                },
                Err(x) => (Err(x), env1),
            }
        },
        ExprModel::Unary(op, right) => {
            let (r, env1) = eval(*right, env);
            match r {
                Ok(v) => (unary_op(op, v), env1),
                Err(x) => (Err(x), env1),
            }
        },
        ExprModel::Binary(left, op, right) => {
            let (l, env1) = eval(*left, env);
            match l {
                Ok(a) => {
                    let (r, env2) = eval(*right, env1);
                    match r {
                        Ok(b) => (binary_op(op, a, b), env2),
                        Err(x) => (Err(x), env2),
                    }
                },
                Err(x) => (Err(x), env1),
            }
        },
    }
}

/// String concatenation: `+` joins two strings, and adding a number to a
/// string is a type error reported at the operator, never a crash.
pub proof fn plus_joins_strings_and_rejects_mixtures(op: TokenModel, x: Seq<char>, y: Seq<char>, n: int)
    requires
        op.token_type == TokenType::Plus,
    ensures
        binary_op(op, ValueModel::String(x), ValueModel::String(y)) == Ok::<ValueModel, LoxError>(
            ValueModel::String(x + y),
        ),
        binary_op(op, ValueModel::Number(n), ValueModel::String(y)) == Err::<ValueModel, LoxError>(
            runtime_error(op, ErrorKind::OperandsMustBeNumbersOrStrings),
        ),
        binary_op(op, ValueModel::String(x), ValueModel::Number(n)) == Err::<ValueModel, LoxError>(
            runtime_error(op, ErrorKind::OperandsMustBeNumbersOrStrings),
        ),
{
}

/// Truthiness: `!v` is true exactly where `v` is `nil` or `false`; every
/// other value, `0` and the empty string included, is truthy.
pub proof fn negation_follows_truthiness(op: TokenModel, v: ValueModel)
    requires
        op.token_type == TokenType::Bang,
    ensures
        unary_op(op, v) == Ok::<ValueModel, LoxError>(
            ValueModel::Boolean(v is Nil || v == ValueModel::Boolean(false)),
        ),
{
}

/// Equality never fails: `==` and `!=` give a boolean for any two values,
/// and values of different types are never equal.
pub proof fn equality_never_fails(op: TokenModel, a: ValueModel, b: ValueModel)
    requires
        op.token_type == TokenType::EqualEqual || op.token_type == TokenType::BangEqual,
    ensures
        binary_op(op, a, b) is Ok,
        binary_op(op, a, b)->Ok_0 is Boolean,
        (a is Number && !(b is Number)) || (a is String && !(b is String)) || (a is Boolean
            && !(b is Boolean)) || (a is Nil && !(b is Nil)) ==> binary_op(op, a, b)
            == Ok::<ValueModel, LoxError>(
            ValueModel::Boolean(op.token_type == TokenType::BangEqual),
        ),
{
}

/// Assigning to a name that no scope binds is a runtime error at the name,
/// and does not silently succeed.
pub proof fn undefined_assignment_is_an_error(t: TokenModel, value: ExprModel, env: EnvModel)
    requires
        eval(value, env).0 is Ok,
        lookup(eval(value, env).1, t.lexeme) is None,
    ensures
        eval(ExprModel::Assignment(t, Box::new(value)), env).0 == Err::<ValueModel, LoxError>(
            runtime_error(t, ErrorKind::UndefinedVariable),
        ),
{
}

/// A sum of a number and a product, `a + (b * c)`, evaluates as arithmetic
/// does: the product first, then the sum, each kept to the range of
/// numbers.
pub proof fn sum_of_product_evaluates(
    a: TokenModel,
    plus: TokenModel,
    b: TokenModel,
    times: TokenModel,
    c: TokenModel,
    env: EnvModel,
)
    requires
        a.token_type == TokenType::Number,
        b.token_type == TokenType::Number,
        c.token_type == TokenType::Number,
        plus.token_type == TokenType::Plus,
        times.token_type == TokenType::Star,
    ensures
        ({
            let e = ExprModel::Binary(
                Box::new(ExprModel::Literal(a)),
                plus,
                Box::new(
                    ExprModel::Binary(
                        Box::new(ExprModel::Literal(b)),
                        times,
                        Box::new(ExprModel::Literal(c)),
                    ),
                ),
            );
            let bc = product(b.value, c.value);
            &&& eval(e, env).1 == env
            &&& eval(e, env).0 == if in_range(bc) {
                number_result(plus, a.value + bc)
            } else {
                Err(runtime_error(times, ErrorKind::NumberOutOfRange))
            }
        }),
{
    let la = ExprModel::Literal(a);
    let lb = ExprModel::Literal(b);
    let lc = ExprModel::Literal(c);
    let inner = ExprModel::Binary(Box::new(lb), times, Box::new(lc));
    let bc = product(b.value, c.value);
    assert(eval(la, env) == (Ok::<ValueModel, LoxError>(ValueModel::Number(a.value)), env));
    assert(eval(lb, env) == (Ok::<ValueModel, LoxError>(ValueModel::Number(b.value)), env));
    assert(eval(lc, env) == (Ok::<ValueModel, LoxError>(ValueModel::Number(c.value)), env));
    assert(eval(inner, env) == (number_result(times, bc), env));
}

pub open spec fn value_result(r: Result<Value, LoxError>) -> Result<ValueModel, LoxError> {
    match r {
        Ok(v) => Ok(v@),
        Err(e) => Err(e),
    }
}

fn token_error(t: &Token, kind: ErrorKind) -> (r: LoxError)
    ensures
        r == runtime_error(t@, kind),
{
    error(t.line, kind)
}

fn number_value(op: &Token, x: Option<i64>) -> (r: Result<Value, LoxError>)
    ensures
        x is Some ==> value_result(r) == Ok::<ValueModel, LoxError>(ValueModel::Number(x->Some_0 as int)),
        x is None ==> value_result(r) == Err::<ValueModel, LoxError>(runtime_error(op@, ErrorKind::NumberOutOfRange)),
{
    match x {
        Some(n) => Ok(Value::Number(n)),
        None => Err(token_error(op, ErrorKind::NumberOutOfRange)),
    }
}

fn literal_of(t: &Token) -> (r: Value)
    ensures
        r@ == literal_value(t@),
{
    if t.token_type == TokenType::Number {
        Value::Number(t.value)
    } else if t.token_type == TokenType::String {
        if t.lexeme.len() >= 2 {
            Value::String(chars_between(&t.lexeme, 1, t.lexeme.len() - 1))
        } else {
            Value::String(Vec::new())
        }
    } else if t.token_type == TokenType::True {
        Value::Boolean(true)
    } else if t.token_type == TokenType::False {
        Value::Boolean(false)
    } else {
        Value::Nil
    }
}

fn apply_unary(op: &Token, v: Value) -> (r: Result<Value, LoxError>)
    ensures
        value_result(r) == unary_op(op@, v@),
{
    if op.token_type == TokenType::Minus {
        match v {
            Value::Number(n) => number_value(op, checked_neg(n)),
            _ => Err(token_error(op, ErrorKind::OperandMustBeNumber)),
        }
    } else {
        Ok(Value::Boolean(!v.is_truthy()))
    }
}

fn apply_binary(op: &Token, a: Value, b: Value) -> (r: Result<Value, LoxError>)
    ensures
        value_result(r) == binary_op(op@, a@, b@),
{
    let k = op.token_type;
    if k == TokenType::EqualEqual {
        return Ok(Value::Boolean(a.is_equal(&b)));
    }
    if k == TokenType::BangEqual {
        return Ok(Value::Boolean(!a.is_equal(&b)));
    }
    if k == TokenType::Plus {
        return match (a, b) {
            (Value::Number(x), Value::Number(y)) => number_value(op, checked_add(x, y)),
            (Value::String(x), Value::String(y)) => {
                let mut joined = x;
                let mut other = y;
                let ghost xs = joined@;
                let ghost ys = other@;
                joined.append(&mut other);
                assert(joined@ =~= xs + ys);
                Ok(Value::String(joined))
            },
            _ => Err(token_error(op, ErrorKind::OperandsMustBeNumbersOrStrings)),
        };
    }
    match (a, b) {
        (Value::Number(x), Value::Number(y)) => {
            if k == TokenType::Minus {
                number_value(op, checked_sub(x, y))
            } else if k == TokenType::Star {
                number_value(op, checked_mul(x, y))
            } else if k == TokenType::Slash {
                if y == 0 {
                    Err(token_error(op, ErrorKind::DivisionByZero))
                } else {
                    number_value(op, checked_div(x, y))
                }
            } else if k == TokenType::Less {
                Ok(Value::Boolean(x < y))
            } else if k == TokenType::LessEqual {
                Ok(Value::Boolean(x <= y))
            } else if k == TokenType::Greater {
                Ok(Value::Boolean(x > y))
            } else {
                Ok(Value::Boolean(x >= y))
            }
        },
        _ => Err(token_error(op, ErrorKind::OperandsMustBeNumbers)),
    }
}

impl Expr {
    /// Whether `value` counts as true in a condition (`truthy`).
    pub fn is_truthy(value: &Value) -> (r: bool)
        ensures
            r == truthy(value@),
    {
        value.is_truthy()
    }

    /// Evaluates this expression in `environment`, as `eval` says.
    pub fn interpret(&self, environment: &mut Environment) -> (r: Result<Value, LoxError>)
        requires
            old(environment).wf(),
        ensures
            final(environment).wf(),
            value_result(r) == eval(self@, old(environment)@).0,
            final(environment)@ == eval(self@, old(environment)@).1,
        decreases self,
    {
        match self {
            Expr::Literal(t) => Ok(literal_of(t)),
            Expr::Grouping(inner) => inner.interpret(environment),
            Expr::Var(t) => match environment.get_variable(&t.lexeme) {
                Some(v) => Ok(v),
                None => Err(token_error(t, ErrorKind::UndefinedVariable)),
            },
            Expr::Assignment(t, value) => {
                let v = match value.interpret(environment) {
                    Ok(v) => v,
                    Err(e) => return Err(e),
                };
                let name = chars_between(&t.lexeme, 0, t.lexeme.len());
                assert(name@ =~= t.lexeme@);
                let result = v.duplicate();
                if environment.assign_variable(name, v) {
                    Ok(result)
                } else {
                    Err(token_error(t, ErrorKind::UndefinedVariable))
                }
            },
            Expr::Unary { op, right } => {
                let v = match right.interpret(environment) {
                    Ok(v) => v,
                    Err(e) => return Err(e),
                };
                apply_unary(op, v)
            },
            Expr::Binary { left, op, right } => {
                let a = match left.interpret(environment) {
                    Ok(v) => v,
                    Err(e) => return Err(e),
                };
                let b = match right.interpret(environment) {
                    Ok(v) => v,
                    Err(e) => return Err(e),
                };
                apply_binary(op, a, b)
            },
        }
    }
}

/// The textual form of a value.
pub open spec fn show_value(v: ValueModel) -> Seq<char> {
    match v {
        ValueModel::Number(n) => show_number(n),
        ValueModel::String(s) => s,
        ValueModel::Boolean(b) => if b {
            seq!['t', 'r', 'u', 'e']
        } else {
            seq!['f', 'a', 'l', 's', 'e']
        },
        ValueModel::Nil => seq!['N', 'i', 'l'],
    }
}

/// Appends the textual form of `v`.
pub fn push_value(v: &Value, out: &mut Vec<char>)
    ensures
        final(out)@ == old(out)@ + show_value(v@),
{
    let ghost start = out@;
    match v {
        Value::Number(n) => push_number(*n, out),
        Value::String(s) => {
            let mut i: usize = 0;
            while i < s.len()
                invariant
                    i <= s@.len(),
                    out@ == start + s@.subrange(0, i as int),
                decreases s@.len() - i,
            {
                out.push(s[i]);
                i = i + 1;
                assert(out@ =~= start + s@.subrange(0, i as int));
            }
            assert(s@.subrange(0, i as int) =~= s@);
        },
        Value::Boolean(b) => {
            if *b {
                out.push('t');
                out.push('r');
                out.push('u');
                out.push('e');
            } else {
                out.push('f');
                out.push('a');
                out.push('l');
                out.push('s');
                out.push('e');
            }
            assert(out@ =~= start + show_value(v@));
        },
        Value::Nil => {
            out.push('N');
            out.push('i');
            out.push('l');
            assert(out@ =~= start + show_value(v@));
        },
    }
}

/// The state a program runs against: its scope chain and what it has printed.
pub struct Machine {
    pub env: EnvModel,
    pub out: Seq<char>,
}

pub type Outcome = Option<(Result<(), LoxError>, Machine)>;

/// What executing `s` from `m` does, within `fuel`: the budget is one less
/// for each nested statement and each further round of a loop. `None` where
/// it runs out.
pub open spec fn exec_stmt(s: StmtModel, m: Machine, fuel: nat) -> Outcome
    decreases fuel, 0nat,
{
    if fuel == 0 {
        None
    } else {
        match s {
            StmtModel::Expression(e) => {
                let (r, env) = eval(e, m.env);
                Some((
                    match r {
                        Ok(_) => Ok(()),
                        Err(x) => Err(x),
                    },
                    Machine { env, out: m.out },
                ))
            },
            StmtModel::Print(e) => {
                let (r, env) = eval(e, m.env);
                match r {
                    Ok(v) => Some((Ok(()), Machine { env, out: m.out + show_value(v) + seq!['\n'] })),
                    Err(x) => Some((Err(x), Machine { env, out: m.out })),
                }
            },
            StmtModel::Var(t) => Some(
                (Ok(()), Machine { env: define(m.env, t.lexeme, ValueModel::Nil), out: m.out }),
            ),
            StmtModel::InitialisedVar(t, e) => {
                let (r, env) = eval(e, m.env);
                match r {
                    Ok(v) => Some((Ok(()), Machine { env: define(env, t.lexeme, v), out: m.out })),
                    Err(x) => Some((Err(x), Machine { env, out: m.out })),
                }
            },
            StmtModel::Block(body) => match exec_list(
                body,
                Machine { env: push_scope(m.env), out: m.out },
                (fuel - 1) as nat,
            ) {
                Some((r, m2)) => Some((r, Machine { env: pop_scope(m2.env), out: m2.out })),
                None => None,
            },
            StmtModel::If(c, a, b) => {
                let (r, env) = eval(c, m.env);
                let m1 = Machine { env, out: m.out };
                match r {
                    Ok(v) => if truthy(v) {
                        exec_stmt(*a, m1, (fuel - 1) as nat)
                    } else {
                        match b {
                            Some(b) => exec_stmt(*b, m1, (fuel - 1) as nat),
                            None => Some((Ok(()), m1)),
                        }
                    },
                    Err(x) => Some((Err(x), m1)),
                }
            },
            StmtModel::While(c, body) => {
                let (r, env) = eval(c, m.env);
                let m1 = Machine { env, out: m.out };
                match r {
                    Ok(v) => if truthy(v) {
                        match exec_stmt(*body, m1, (fuel - 1) as nat) {
                            Some((Ok(()), m2)) => exec_stmt(
                                StmtModel::While(c, body),
                                m2,
                                (fuel - 1) as nat,
                            ),
                            other => other,
                        }
                    } else {
                        Some((Ok(()), m1))
                    },
                    Err(x) => Some((Err(x), m1)),
                }
            },
        }
    }
}

/// Executes `ss` in order from `m`, each within `fuel`, stopping at the
/// first error.
pub open spec fn exec_list(ss: Seq<StmtModel>, m: Machine, fuel: nat) -> Outcome
    decreases fuel, ss.len(),
{
    if ss.len() == 0 {
        Some((Ok(()), m))
    } else {
        match exec_stmt(ss[0], m, fuel) {
            Some((Ok(()), m2)) => exec_list(ss.drop_first(), m2, fuel),
            other => other,
        }
    }
}

/// `r`, `env` and `out` are what the outcome `o` says.
pub open spec fn matches_outcome(
    r: Option<Result<(), LoxError>>,
    env: EnvModel,
    out: Seq<char>,
    o: Outcome,
) -> bool {
    match o {
        Some((res, m)) => r == Some(res) && env == m.env && out == m.out,
        None => r is None,
    }
}

pub proof fn lemma_stmt_models_index(v: Seq<Stmt>)
    ensures
        stmt_models(v).len() == v.len(),
        forall|i: int| 0 <= i < v.len() ==> #[trigger] stmt_models(v)[i] == v[i]@,
    decreases v.len(),
{
    if v.len() > 0 {
        let init = v.drop_last();
        lemma_stmt_models_index(init);
        assert(stmt_models(v) == stmt_models(init).push(v.last()@));
        assert forall|i: int| 0 <= i < v.len() implies #[trigger] stmt_models(v)[i] == v[i]@ by {
            if i < v.len() - 1 {
                assert(stmt_models(init)[i] == init[i]@);
            }
        }
    }
}

impl Stmt {
    /// Executes this statement within `fuel` (see `exec_stmt`); `None` where
    /// the budget runs out.
    pub fn interpret(&self, environment: &mut Environment, output: &mut Vec<char>, fuel: u64) -> (r:
        Option<Result<(), LoxError>>)
        requires
            old(environment).wf(),
        ensures
            final(environment).wf(),
            matches_outcome(
                r,
                final(environment)@,
                final(output)@,
                exec_stmt(
                    self@,
                    Machine { env: old(environment)@, out: old(output)@ },
                    fuel as nat,
                ),
            ),
        decreases fuel, 0nat,
    {
        if fuel == 0 {
            return None;
        }
        match self {
            Stmt::Expression(e) => match e.interpret(environment) {
                Ok(_) => Some(Ok(())),
                Err(x) => Some(Err(x)),
            },
            Stmt::Print(e) => match e.interpret(environment) {
                Ok(v) => {
                    let ghost before = output@;
                    push_value(&v, output);
                    output.push('\n');
                    assert(output@ =~= before + show_value(v@) + seq!['\n']);
                    Some(Ok(()))
                },
                Err(x) => Some(Err(x)),
            },
            Stmt::Var(t) => {
                let name = chars_between(&t.lexeme, 0, t.lexeme.len());
                assert(name@ =~= t.lexeme@);
                environment.set_variable(name, Value::Nil);
                Some(Ok(()))
            },
            Stmt::InitialisedVar(t, e) => match e.interpret(environment) {
                Ok(v) => {
                    let name = chars_between(&t.lexeme, 0, t.lexeme.len());
                    assert(name@ =~= t.lexeme@);
                    environment.set_variable(name, v);
                    Some(Ok(()))
                },
                Err(x) => Some(Err(x)),
            },
            Stmt::Block(body) => {
                environment.push_scope();
                let r = Self::interpret_all(body, environment, output, fuel - 1);
                environment.pop_scope();
                r
            },
            Stmt::If(c, a, b) => match c.interpret(environment) {
                Ok(v) => if v.is_truthy() {
                    a.interpret(environment, output, fuel - 1)
                } else {
                    match b {
                        Some(b) => b.interpret(environment, output, fuel - 1),
                        None => Some(Ok(())),
                    }
                },
                Err(x) => Some(Err(x)),
            },
            Stmt::While(c, body) => {
                let ghost w = self@;
                let mut f: u64 = fuel;
                loop
                    invariant
                        environment.wf(),
                        f <= fuel,
                        w == self@,
                        w == StmtModel::While(c@, Box::new(body@)),
                        exec_stmt(
                            w,
                            Machine { env: old(environment)@, out: old(output)@ },
                            fuel as nat,
                        ) == exec_stmt(w, Machine { env: environment@, out: output@ }, f as nat),
                    decreases f,
                {
                    if f == 0 {
                        return None;
                    }
                    let v = match c.interpret(environment) {
                        Ok(v) => v,
                        Err(x) => return Some(Err(x)),
                    };
                    if !v.is_truthy() {
                        return Some(Ok(()));
                    }
                    match body.interpret(environment, output, f - 1) {
                        Some(Ok(())) => {},
                        other => return other,
                    }
                    f = f - 1;
                }
            },
        }
    }

    /// Executes `body` in order within `fuel` (see `exec_list`).
    pub fn interpret_all(body: &Vec<Stmt>, environment: &mut Environment, output: &mut Vec<char>, fuel: u64) -> (r: Option<Result<(), LoxError>>)
        requires
            old(environment).wf(),
        ensures
            final(environment).wf(),
            matches_outcome(
                r,
                final(environment)@,
                final(output)@,
                exec_list(
                    stmt_models(body@),
                    Machine { env: old(environment)@, out: old(output)@ },
                    fuel as nat,
                ),
            ),
        decreases fuel, 1nat,
    {
        let ghost ss = stmt_models(body@);
        proof {
            lemma_stmt_models_index(body@);
        }
        let mut i: usize = 0;
        assert(ss.subrange(0, ss.len() as int) =~= ss);
        while i < body.len()
            invariant
                environment.wf(),
                i <= body@.len(),
                ss == stmt_models(body@),
                ss.len() == body@.len(),
                forall|j: int| 0 <= j < body@.len() ==> #[trigger] ss[j] == body@[j]@,
                exec_list(ss, Machine { env: old(environment)@, out: old(output)@ }, fuel as nat)
                    == exec_list(
                    ss.subrange(i as int, ss.len() as int),
                    Machine { env: environment@, out: output@ },
                    fuel as nat,
                ),
            decreases body@.len() - i,
        {
            let ghost rest = ss.subrange(i as int, ss.len() as int);
            assert(rest[0] == body@[i as int]@);
            assert(rest.drop_first() =~= ss.subrange(i + 1, ss.len() as int));
            match body[i].interpret(environment, output, fuel) {
                Some(Ok(())) => {},
                other => return other,
            }
            i = i + 1;
        }
        Some(Ok(()))
    }
}

} // verus!

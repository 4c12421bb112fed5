use vstd::prelude::*;

use crate::ast::{stmt_models, Stmt};
use crate::environment::Environment;
use crate::error::{error, ErrorKind, LoxError};
use crate::interpreter::{eval, exec_list, number_result, runtime_error, sum_of_product_evaluates, Machine};
use crate::number::{in_range, product};
use crate::parser::{expression, product_binds_tighter_than_sum, program, well_formed, Parser};
use crate::environment::EnvModel;
use crate::tokens::{TokenModel, TokenType};
use crate::value::ValueModel;
use crate::scanner::{lemma_scan_ends_with_eof, models, scan, Scanner};

verus! {

/// What running `src` from `m` yields: the problems found, and the state
/// after it. A program with lexical or syntax problems is not run; a
/// runtime problem stops it. `None` where the budget runs out.
pub open spec fn run_model(src: Seq<char>, m: Machine, fuel: nat) -> Option<(Seq<LoxError>, Machine)> {
    let (toks, lexical) = scan(src);
    let (stmts, syntax) = program(toks, 0);
    if lexical.len() > 0 || syntax.len() > 0 {
        Some((lexical + syntax, m))
    } else {
        match exec_list(stmts, m, fuel) {
            Some((Ok(()), m2)) => Some((Seq::empty(), m2)),
            Some((Err(e), m2)) => Some((seq![e], m2)),
            None => None,
        }
    }
}

/// Parsing then evaluating `a + b * c` follows arithmetic precedence: the
/// result is a + b·c, the product taken first, each step kept to the range
/// of numbers.
pub proof fn arithmetic_follows_precedence(toks: Seq<TokenModel>, env: EnvModel)
    requires
        toks.len() >= 6,
        toks[0].token_type == TokenType::Number,
        toks[1].token_type == TokenType::Plus,
        toks[2].token_type == TokenType::Number,
        toks[3].token_type == TokenType::Star,
        toks[4].token_type == TokenType::Number,
        toks[5].token_type == TokenType::Semicolon,
    ensures
        expression(toks, 0) is Ok,
        ({
            let bc = product(toks[2].value, toks[4].value);
            eval(expression(toks, 0)->Ok_0.0, env).0 == if in_range(bc) {
                number_result(toks[1], toks[0].value + bc)
            } else {
                Err::<ValueModel, LoxError>(runtime_error(toks[3], ErrorKind::NumberOutOfRange))
            }
        }),
{
    product_binds_tighter_than_sum(toks);
    sum_of_product_evaluates(toks[0], toks[1], toks[2], toks[3], toks[4], env);
}

/// Scans, parses and runs `source` against `environment`, appending what
/// it prints to `output`; returns the problems found (none on success). A
/// loop or a nesting deeper than `budget` stops the run with a
/// `BudgetExhausted` problem.
pub fn run(source: String, environment: &mut Environment, output: &mut Vec<char>, budget: u64) -> (r:
    Vec<LoxError>)
    requires
        source@.len() < usize::MAX,
        old(environment).wf(),
    ensures
        final(environment).wf(),
        match run_model(
            source@,
            Machine { env: old(environment)@, out: old(output)@ },
            budget as nat,
        ) {
            Some((errors, m)) => r@ == errors && final(environment)@ == m.env && final(output)@
                == m.out,
            None => r@ == seq![LoxError { line: 0, kind: ErrorKind::BudgetExhausted }],
        },
{
    let ghost src = source@;
    let scanner = Scanner::new(source);
    let (tokens, mut lexical) = scanner.scan_tokens();
    proof {
        lemma_scan_ends_with_eof(src, 0, 1);
    }
    let mut parser = Parser::new(tokens);
    let parsed = parser.parse();
    match parsed {
        Ok(stmts) => {
            if lexical.len() > 0 {
                assert(lexical@ + Seq::empty() =~= lexical@);
                return lexical;
            }
            match Stmt::interpret_all(&stmts, environment, output, budget) {
                Some(Ok(())) => Vec::new(),
                Some(Err(e)) => {
                    let mut errors = Vec::new();
                    errors.push(e);
                    assert(errors@ =~= seq![e]);
                    errors
                },
                None => {
                    let mut errors = Vec::new();
                    errors.push(error(0, ErrorKind::BudgetExhausted));
                    assert(errors@ =~= seq![LoxError { line: 0, kind: ErrorKind::BudgetExhausted }]);
                    errors
                },
            }
        },
        Err(mut syntax) => {
            let ghost a = lexical@;
            let ghost b = syntax@;
            lexical.append(&mut syntax);
            assert(lexical@ =~= a + b);
            lexical
        },
    }
}

} // verus!

use rlox::environment::Environment;
use rlox::error::{ErrorKind, LoxError};
use rlox::lox::run;

fn run_with_budget(source: &str, budget: u64) -> (String, Vec<LoxError>) {
    let mut env = Environment::new();
    let mut out: Vec<char> = Vec::new();
    let errors = run(String::from(source), &mut env, &mut out, budget);
    (out.iter().collect(), errors)
}

fn run_source(source: &str) -> (String, Vec<LoxError>) {
    run_with_budget(source, u64::MAX)
}

fn kinds(errors: &[LoxError]) -> Vec<ErrorKind> {
    errors.iter().map(|e| e.kind).collect()
}

#[test]
fn multiplication_binds_tighter_than_addition() {
    assert_eq!(run_source("print 1 + 2 * 3;"), (String::from("7\n"), vec![]));
}

#[test]
fn grouping_overrides_precedence() {
    assert_eq!(run_source("print (1 + 2) * 3;"), (String::from("9\n"), vec![]));
}

#[test]
fn subtraction_and_division_are_left_associative() {
    assert_eq!(run_source("print 10 - 4 - 3;").0, "3\n");
    assert_eq!(run_source("print 8 / 4 / 2;").0, "1\n");
}

#[test]
fn comparison_binds_tighter_than_equality() {
    assert_eq!(run_source("print 1 < 2 == true;").0, "true\n");
}

#[test]
fn unary_minus_and_fractions() {
    assert_eq!(run_source("print -2.5;").0, "-2.5\n");
    assert_eq!(run_source("print 7 / 2;").0, "3.5\n");
    assert_eq!(run_source("print 1 / 3;").0, "0.333333\n");
    assert_eq!(run_source("print 0.1 + 0.2;").0, "0.3\n");
    assert_eq!(run_source("print 1.5 * 1.5;").0, "2.25\n");
    assert_eq!(run_source("print -7 / 2;").0, "-3.5\n");
}

#[test]
fn string_concatenation() {
    assert_eq!(run_source("print \"a\" + \"b\";"), (String::from("ab\n"), vec![]));
}

#[test]
fn adding_number_to_string_is_a_type_error() {
    let (out, errors) = run_source("print 1 + \"a\";");
    assert_eq!(out, "");
    assert_eq!(errors, vec![LoxError { line: 1, kind: ErrorKind::OperandsMustBeNumbersOrStrings }]);
}

#[test]
fn truthiness_of_nil_false_zero_and_empty_string() {
    assert_eq!(run_source("print !nil;").0, "true\n");
    assert_eq!(run_source("print !false;").0, "true\n");
    assert_eq!(run_source("print !0;").0, "false\n");
    assert_eq!(run_source("print !\"\";").0, "false\n");
}

#[test]
fn equality_across_types_is_false() {
    assert_eq!(run_source("print 1 == \"1\";"), (String::from("false\n"), vec![]));
    assert_eq!(run_source("print nil == false;").0, "false\n");
    assert_eq!(run_source("print nil == nil;").0, "true\n");
    assert_eq!(run_source("print \"ab\" == \"a\" + \"b\";").0, "true\n");
    assert_eq!(run_source("print true != true;").0, "false\n");
}

#[test]
fn inner_declaration_shadows_without_leaking() {
    assert_eq!(
        run_source("var x = 1; { var x = 2; print x; } print x;"),
        (String::from("2\n1\n"), vec![])
    );
}

#[test]
fn assignment_in_block_mutates_outer_binding() {
    assert_eq!(run_source("var x = 1; { x = 2; } print x;"), (String::from("2\n"), vec![]));
}

#[test]
fn assignment_to_undefined_variable_is_an_error() {
    let (out, errors) = run_source("x = 1;");
    assert_eq!(out, "");
    assert_eq!(errors, vec![LoxError { line: 1, kind: ErrorKind::UndefinedVariable }]);
}

#[test]
fn reading_undefined_variable_is_an_error() {
    let (_, errors) = run_source("print y;");
    assert_eq!(kinds(&errors), vec![ErrorKind::UndefinedVariable]);
}

#[test]
fn while_loop_counts_to_three() {
    assert_eq!(
        run_source("var i = 0; while (i < 3) { print i; i = i + 1; }"),
        (String::from("0\n1\n2\n"), vec![])
    );
}

#[test]
fn if_else_takes_one_branch() {
    assert_eq!(run_source("if (1 < 2) print \"yes\"; else print \"no\";").0, "yes\n");
    assert_eq!(run_source("if (nil) print \"yes\"; else print \"no\";").0, "no\n");
    assert_eq!(run_source("if (false) print \"yes\";").0, "");
}

#[test]
fn assignment_is_an_expression() {
    assert_eq!(run_source("var a; var b; a = b = 3; print a; print b;").0, "3\n3\n");
}

#[test]
fn declaration_without_initialiser_is_nil() {
    assert_eq!(run_source("var a; print a;").0, "Nil\n");
}

#[test]
fn printing_stops_at_first_runtime_error() {
    let (out, errors) = run_source("print 1;\nprint -\"a\";\nprint 2;");
    assert_eq!(out, "1\n");
    assert_eq!(errors, vec![LoxError { line: 2, kind: ErrorKind::OperandMustBeNumber }]);
}

#[test]
fn comparing_string_to_number_is_an_error() {
    assert_eq!(kinds(&run_source("print 1 < \"a\";").1), vec![ErrorKind::OperandsMustBeNumbers]);
}

#[test]
fn division_by_zero_is_an_error() {
    assert_eq!(kinds(&run_source("print 1 / 0;").1), vec![ErrorKind::DivisionByZero]);
}

#[test]
fn overflowing_product_is_an_error() {
    assert_eq!(
        kinds(&run_source("print 9000000 * 9000000;").1),
        vec![ErrorKind::NumberOutOfRange]
    );
}

#[test]
fn runaway_loop_exhausts_the_budget() {
    let (_, errors) = run_with_budget("while (true) {}", 50);
    assert_eq!(errors, vec![LoxError { line: 0, kind: ErrorKind::BudgetExhausted }]);
}

#[test]
fn syntax_errors_are_all_reported_after_resynchronizing() {
    let (out, errors) = run_source("print ;\nvar 1;\nprint 2");
    assert_eq!(out, "");
    assert_eq!(
        errors,
        vec![
            LoxError { line: 1, kind: ErrorKind::ExpectExpression },
            LoxError { line: 2, kind: ErrorKind::ExpectIdentifier },
            LoxError { line: 3, kind: ErrorKind::ExpectSemicolon },
        ]
    );
}

#[test]
fn missing_parens_and_braces_are_syntax_errors() {
    assert_eq!(kinds(&run_source("print (1;").1), vec![ErrorKind::ExpectRightParen]);
    assert_eq!(kinds(&run_source("while 1 print 1;").1), vec![ErrorKind::ExpectLeftParen]);
    assert_eq!(kinds(&run_source("{ print 1;").1), vec![ErrorKind::ExpectRightBrace]);
}

#[test]
fn invalid_assignment_target_is_a_syntax_error() {
    assert_eq!(kinds(&run_source("1 = 2;").1), vec![ErrorKind::InvalidAssignmentTarget]);
}

#[test]
fn lexical_errors_stop_the_run() {
    let (out, errors) = run_source("print 1;\n@\nprint \"open");
    assert_eq!(out, "");
    assert_eq!(
        errors,
        vec![
            LoxError { line: 2, kind: ErrorKind::UnexpectedCharacter },
            LoxError { line: 3, kind: ErrorKind::UnterminatedString },
            LoxError { line: 3, kind: ErrorKind::ExpectExpression },
        ]
    );
}

#[test]
fn environment_persists_between_runs() {
    let mut env = Environment::new();
    let mut out: Vec<char> = Vec::new();
    assert!(run(String::from("var x = 41;"), &mut env, &mut out, 100).is_empty());
    assert!(run(String::from("x = x + 1; print x;"), &mut env, &mut out, 100).is_empty());
    assert_eq!(out.iter().collect::<String>(), "42\n");
}

#[test]
fn empty_program_prints_nothing() {
    assert_eq!(run_source(""), (String::new(), vec![]));
    assert_eq!(run_source("// only a comment"), (String::new(), vec![]));
}

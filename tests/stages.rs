use rlox::ast::{Expr, Stmt};
use rlox::environment::Environment;
use rlox::error::{error, ErrorKind, LoxError};
use rlox::parser::Parser;
use rlox::scanner::Scanner;
use rlox::tokens::{Token, TokenType};
use rlox::value::Value;

fn scan(source: &str) -> (Vec<Token>, Vec<LoxError>) {
    Scanner::new(String::from(source)).scan_tokens()
}

fn kinds_of(tokens: &[Token]) -> Vec<TokenType> {
    tokens.iter().map(|t| t.token_type).collect()
}

fn text(chars: &[char]) -> String {
    chars.iter().collect()
}

fn parse(source: &str) -> Result<Vec<Stmt>, Vec<LoxError>> {
    let (tokens, _) = scan(source);
    Parser::new(tokens).parse()
}

#[test]
fn scanner_recognizes_operators_greedily() {
    let (tokens, errors) = scan("! != = == < <= > >= / // comment\n( ) { } , . - + ; *");
    assert!(errors.is_empty());
    assert_eq!(
        kinds_of(&tokens),
        vec![
            TokenType::Bang, TokenType::BangEqual, TokenType::Equal, TokenType::EqualEqual, TokenType::Less, TokenType::LessEqual, TokenType::Greater, TokenType::GreaterEqual, TokenType::Slash,
            TokenType::LeftParen, TokenType::RightParen, TokenType::LeftBrace, TokenType::RightBrace, TokenType::Comma, TokenType::Dot, TokenType::Minus, TokenType::Plus, TokenType::Semicolon,
            TokenType::Star, TokenType::Eof
        ]
    );
    assert_eq!(tokens[19].line, 2);
}

#[test]
fn scanner_reads_keywords_identifiers_numbers_and_strings() {
    let (tokens, errors) = scan("var while_ = 12.5; print \"hi\nthere\" and orchid");
    assert!(errors.is_empty());
    assert_eq!(
        kinds_of(&tokens),
        vec![TokenType::Var, TokenType::Identifier, TokenType::Equal, TokenType::Number, TokenType::Semicolon, TokenType::Print, TokenType::String, TokenType::And, TokenType::Identifier, TokenType::Eof]
    );
    assert_eq!(text(&tokens[1].lexeme), "while_");
    assert_eq!(tokens[3].value, 12_500_000);
    assert_eq!(text(&tokens[3].lexeme), "12.5");
    assert_eq!(text(&tokens[6].lexeme), "\"hi\nthere\"");
    assert_eq!(tokens[6].line, 2);
    assert_eq!(text(&tokens[8].lexeme), "orchid");
}

#[test]
fn number_without_digits_after_point_stops_before_it() {
    let (tokens, _) = scan("3.x");
    assert_eq!(kinds_of(&tokens), vec![TokenType::Number, TokenType::Dot, TokenType::Identifier, TokenType::Eof]);
    assert_eq!(tokens[0].value, 3_000_000);
}

#[test]
fn fraction_digits_past_the_sixth_are_dropped() {
    let (tokens, _) = scan("0.1234567");
    assert_eq!(tokens[0].value, 123_456);
}

#[test]
fn too_large_number_literal_is_a_lexical_error() {
    let (tokens, errors) = scan("99999999999999");
    assert_eq!(kinds_of(&tokens), vec![TokenType::Eof]);
    assert_eq!(errors, vec![error(1, ErrorKind::NumberTooLarge)]);
}

#[test]
fn unexpected_character_is_skipped() {
    let (tokens, errors) = scan("1 # 2");
    assert_eq!(kinds_of(&tokens), vec![TokenType::Number, TokenType::Number, TokenType::Eof]);
    assert_eq!(errors, vec![LoxError { line: 1, kind: ErrorKind::UnexpectedCharacter }]);
}

#[test]
fn unterminated_string_emits_no_token() {
    let (tokens, errors) = scan("\"abc\n");
    assert_eq!(kinds_of(&tokens), vec![TokenType::Eof]);
    assert_eq!(tokens[0].line, 2);
    assert_eq!(errors, vec![LoxError { line: 2, kind: ErrorKind::UnterminatedString }]);
}

#[test]
fn empty_source_scans_to_end_marker() {
    let (tokens, errors) = scan("");
    assert_eq!(kinds_of(&tokens), vec![TokenType::Eof]);
    assert!(tokens[0].lexeme.is_empty());
    assert!(errors.is_empty());
}

#[test]
fn scanning_twice_gives_identical_tokens() {
    let source = "var i = 0; while (i < 3) { print i; i = i + 1; } // done\n\"s\" 4.25";
    let (first, first_errors) = scan(source);
    let (second, second_errors) = scan(source);
    assert_eq!(first_errors, second_errors);
    assert_eq!(first.len(), second.len());
    for (a, b) in first.iter().zip(second.iter()) {
        assert_eq!(a.token_type, b.token_type);
        assert_eq!(a.lexeme, b.lexeme);
        assert_eq!(a.value, b.value);
        assert_eq!(a.line, b.line);
    }
}

#[test]
fn expressions_print_in_reverse_polish_notation() {
    let program = parse("1 + 2 * 3; (1 + 2) * -3; a = b == c;").unwrap();
    let rpn: Vec<String> = program
        .iter()
        .map(|s| match s {
            Stmt::Expression(e) => e.print_rpn(),
            _ => panic!("expected an expression statement"),
        })
        .collect();
    assert_eq!(rpn, vec!["1 2 3 * +", "1 2 + 3 - *", "b c == a ="]);
}

#[test]
fn parser_builds_statement_shapes() {
    let program = parse("var a = 1; var b; { print a; } if (a) b = 2; else b = 3; while (b) b = nil;")
        .unwrap();
    assert_eq!(program.len(), 5);
    assert!(matches!(program[0], Stmt::InitialisedVar(_, _)));
    assert!(matches!(program[1], Stmt::Var(_)));
    match &program[2] {
        Stmt::Block(body) => {
            assert_eq!(body.len(), 1);
            assert!(matches!(body[0], Stmt::Print(_)));
        }
        _ => panic!("expected a block"),
    }
    assert!(matches!(program[3], Stmt::If(_, _, Some(_))));
    assert!(matches!(program[4], Stmt::While(_, _)));
}

#[test]
fn assignment_is_right_associative() {
    let program = parse("a = b = 1;").unwrap();
    match &program[0] {
        Stmt::Expression(e) => match &**e {
            Expr::Assignment(a, value) => {
                assert_eq!(text(&a.lexeme), "a");
                assert!(matches!(**value, Expr::Assignment(_, _)));
            }
            _ => panic!("expected an assignment"),
        },
        _ => panic!("expected an expression statement"),
    }
}

#[test]
fn expression_interpreter_evaluates_in_environment() {
    let program = parse("x * 2 + 1;").unwrap();
    let mut env = Environment::new();
    env.set_variable(vec!['x'], Value::Number(4_000_000));
    match &program[0] {
        Stmt::Expression(e) => match e.interpret(&mut env) {
            Ok(Value::Number(n)) => assert_eq!(n, 9_000_000),
            _ => panic!("expected a number"),
        },
        _ => panic!("expected an expression statement"),
    }
}

#[test]
fn statement_interpreter_writes_output() {
    let program = parse("{ var s = \"x\"; print s + s; }").unwrap();
    let mut env = Environment::new();
    let mut out: Vec<char> = Vec::new();
    assert_eq!(program[0].interpret(&mut env, &mut out, 10), Some(Ok(())));
    assert_eq!(text(&out), "xx\n");
    assert!(env.get_variable(&vec!['s']).is_none());
}

#[test]
fn environment_defines_shadows_and_assigns() {
    let mut env = Environment::new();
    env.set_variable(vec!['a'], Value::Number(1));
    env.push_scope();
    env.set_variable(vec!['a'], Value::Boolean(true));
    assert!(matches!(env.get_variable(&vec!['a']), Some(Value::Boolean(true))));
    env.set_variable(vec!['a'], Value::Nil);
    assert!(matches!(env.get_variable(&vec!['a']), Some(Value::Nil)));
    env.pop_scope();
    assert!(matches!(env.get_variable(&vec!['a']), Some(Value::Number(1))));
    env.push_scope();
    assert!(env.assign_variable(vec!['a'], Value::Number(5)));
    env.pop_scope();
    assert!(matches!(env.get_variable(&vec!['a']), Some(Value::Number(5))));
    assert!(!env.assign_variable(vec!['z'], Value::Nil));
    assert!(env.get_variable(&vec!['z']).is_none());
}

#[test]
fn values_compare_and_test_truth() {
    assert!(!Value::Nil.is_truthy());
    assert!(!Value::Boolean(false).is_truthy());
    assert!(Value::Number(0).is_truthy());
    assert!(Value::String(vec![]).is_truthy());
    assert!(Value::Number(1).is_equal(&Value::Number(1)));
    assert!(!Value::Number(1).is_equal(&Value::String(vec!['1'])));
    assert!(Value::String(vec!['a']).is_equal(&Value::String(vec!['a'])));
}

#[test]
fn expression_truthiness_matches_value_truthiness() {
    assert!(!Expr::is_truthy(&Value::Nil));
    assert!(!Expr::is_truthy(&Value::Boolean(false)));
    assert!(Expr::is_truthy(&Value::Number(0)));
    assert!(Expr::is_truthy(&Value::String(vec![])));
}

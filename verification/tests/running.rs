use rlox::ast::{Expr, Stmt};
use rlox::environment::Environment;
use rlox::interpreter::Interpreter;
use rlox::num::Num;
use rlox::object::{Object, Operation, RuntimeError};
use rlox::parser::{ParseError, Parser};
use rlox::scanner::{Scanner, Token};

fn n(v: i64) -> Object {
    Object::Number(Num::from_i64(v))
}

fn s(x: &str) -> Object {
    Object::Str(x.to_string())
}

fn parse(src: &str) -> Result<Vec<Stmt>, ParseError> {
    let mut scanner = Scanner::new(src);
    let tokens = scanner.try_scan_tokens().expect("the text scans");
    let mut parser = Parser::new(tokens);
    parser.try_parse().map(|p| p.0)
}

/// Runs a program on a fresh interpreter: its result and what it printed.
fn run(src: &str) -> (Result<Option<Object>, RuntimeError>, Vec<Object>) {
    let program = parse(src).expect("the text parses");
    let mut interpreter = Interpreter::new();
    let result = interpreter.try_run(&program);
    (result, interpreter.take_output())
}

fn value(src: &str) -> Object {
    run(src).0.expect("the program runs").expect("the program has a value")
}

fn error(src: &str) -> RuntimeError {
    run(src).0.expect_err("the program fails")
}

#[test]
fn parses_precedence_and_grouping() {
    let stmts = parse("1 + 2 * 3;").unwrap();
    assert_eq!(stmts.len(), 1);
    let text = format!("{:?}", stmts[0]);
    let expected = format!(
        "{:?}",
        Stmt::Expression(Expr::build_binary(
            Expr::build_literal(Token::Number(Num::from_i64(1))),
            Token::Plus,
            Expr::build_binary(
                Expr::build_literal(Token::Number(Num::from_i64(2))),
                Token::Star,
                Expr::build_literal(Token::Number(Num::from_i64(3))),
            ),
        ))
    );
    assert_eq!(text, expected);
}

#[test]
fn reports_each_parse_error() {
    assert_eq!(parse("var = 1;").unwrap_err(), ParseError::ExpectedVarName);
    assert_eq!(parse("var a = 1").unwrap_err(), ParseError::ExpectedSemicolonAfterVar);
    assert_eq!(parse("var a 1;").unwrap_err(), ParseError::ExpectedSemicolonAfterVar);
    assert_eq!(parse("print 1").unwrap_err(), ParseError::ExpectedSemicolonAfterStatement);
    assert_eq!(parse("1 2;").unwrap_err(), ParseError::ExpectedSemicolonAfterStatement);
    assert_eq!(parse("(1;").unwrap_err(), ParseError::ExpectedRightParen);
    assert_eq!(parse("1 = 2;").unwrap_err(), ParseError::InvalidAssignTarget);
    assert_eq!(parse(";").unwrap_err(), ParseError::UnexpectedToken(0));
    assert_eq!(parse("1 + ;").unwrap_err(), ParseError::UnexpectedToken(2));
    assert_eq!(parse("{ 1;").unwrap_err(), ParseError::ExpectedRightBrace);
    assert_eq!(parse("if 1;").unwrap_err(), ParseError::ExpectedLeftParenAfterIf);
    assert_eq!(parse("if (1 2;").unwrap_err(), ParseError::ExpectedRightParenAfterIf);
    assert_eq!(parse("while 1;").unwrap_err(), ParseError::ExpectedLeftParenAfterWhile);
    assert_eq!(parse("while (1 2").unwrap_err(), ParseError::ExpectedRightParenAfterWhile);
}

#[test]
fn tokens_without_an_end_are_no_program() {
    let mut parser = Parser::new(vec![Token::Print]);
    assert_eq!(parser.try_parse().unwrap_err(), ParseError::NoEof);
}

#[test]
fn tokens_after_the_first_end_are_ignored() {
    let mut parser = Parser::new(vec![Token::Nil, Token::Semicolon, Token::Eof, Token::Comma]);
    let program = parser.parse();
    assert_eq!(program.0.len(), 1);
}

#[test]
fn an_empty_program_has_no_value() {
    let (result, out) = run("");
    assert_eq!(result, Ok(None));
    assert!(out.is_empty());
}

#[test]
fn arithmetic_follows_precedence() {
    assert_eq!(value("1 + 2 * 3;"), n(7));
    assert_eq!(value("(1 + 2) * 3;"), n(9));
    assert_eq!(value("10 - 2 - 3;"), n(5));
    assert_eq!(value("-(2 + 3);"), n(-5));
    assert_eq!(value("--4;"), n(4));
}

#[test]
fn division_rounds_toward_zero() {
    assert_eq!(value("7 / 2;"), n(3));
    assert_eq!(value("7 / -2;"), n(-3));
    assert_eq!(value("-7 / 2;"), n(-3));
    assert_eq!(error("1 / 0;"), RuntimeError::DivisionByZero);
}

#[test]
fn numbers_have_no_size_limit() {
    assert_eq!(
        value("9223372036854775807 + 1 == 9223372036854775808;"),
        Object::Boolean(true)
    );
    assert_eq!(value("100000000000 * 100000000000 / 100000000000;"), n(100000000000));
}

#[test]
fn strings_concatenate_and_repeat() {
    assert_eq!(value("\"ab\" + \"cd\";"), s("abcd"));
    assert_eq!(value("\"ab\" * 3;"), s("ababab"));
    assert_eq!(value("\"ab\" * 0;"), s(""));
    assert_eq!(value("\"ab\" * -2;"), s(""));
    assert_eq!(value("\"\" * 100000000000000000000000;"), s(""));
    assert_eq!(error("\"ab\" * 100000000000000000000000;"), RuntimeError::RepeatTooLong);
}

#[test]
fn comparisons_and_equality() {
    assert_eq!(value("1 < 2;"), Object::Boolean(true));
    assert_eq!(value("2 <= 2;"), Object::Boolean(true));
    assert_eq!(value("1 > 2;"), Object::Boolean(false));
    assert_eq!(value("3 >= 4;"), Object::Boolean(false));
    assert_eq!(value("1 == 1;"), Object::Boolean(true));
    assert_eq!(value("\"a\" != \"a\";"), Object::Boolean(false));
    assert_eq!(value("nil == nil;"), Object::Boolean(true));
    assert_eq!(value("1 == \"1\";"), Object::Boolean(false));
    assert_eq!(value("true != false;"), Object::Boolean(true));
}

#[test]
fn logic_operators_pick_an_operand() {
    assert_eq!(value("nil or 2;"), n(2));
    assert_eq!(value("1 or 2;"), n(1));
    assert_eq!(value("false and 1;"), Object::Boolean(false));
    assert_eq!(value("1 and 2;"), n(2));
    assert_eq!(value("!true;"), Object::Boolean(false));
}

#[test]
fn operations_on_the_wrong_kinds_fail() {
    assert_eq!(error("1 + \"a\";"), RuntimeError::CannotApply(Operation::Add));
    assert_eq!(error("\"a\" - 1;"), RuntimeError::CannotApply(Operation::Sub));
    assert_eq!(error("1 * \"a\";"), RuntimeError::CannotApply(Operation::Mult));
    assert_eq!(error("true / 1;"), RuntimeError::CannotApply(Operation::Div));
    assert_eq!(error("1 < \"a\";"), RuntimeError::CannotApply(Operation::Compare));
    assert_eq!(error("!1;"), RuntimeError::CannotApply(Operation::Bang));
    assert_eq!(error("-true;"), RuntimeError::CannotApply(Operation::Negate));
}

#[test]
fn variables_must_have_values() {
    assert_eq!(error("x;"), RuntimeError::UndefinedVariable);
    assert_eq!(error("var x; x;"), RuntimeError::UndefinedVariable);
    assert_eq!(value("var x = 4; x;"), n(4));
}

#[test]
fn assignment_changes_the_variable_and_gives_nil() {
    let (result, out) = run("var a = 1; print a = 2; print a;");
    assert_eq!(result, Ok(None));
    assert_eq!(out, vec![Object::Null, n(2)]);
}

#[test]
fn print_collects_values_in_order() {
    let (result, out) = run("print 1; print \"two\"; print true; print nil;");
    assert_eq!(result, Ok(None));
    assert_eq!(out, vec![n(1), s("two"), Object::Boolean(true), Object::Null]);
}

#[test]
fn blocks_shadow_and_restore() {
    let (_, out) = run("var a = 1; { var a = 2; print a; } print a;");
    assert_eq!(out, vec![n(2), n(1)]);
}

#[test]
fn blocks_assign_to_outer_variables() {
    let (_, out) = run("var a = 1; { a = 5; var b = 3; } print a;");
    assert_eq!(out, vec![n(5)]);
    assert_eq!(error("{ var b = 3; } b;"), RuntimeError::UndefinedVariable);
}

#[test]
fn if_takes_one_branch() {
    let (_, out) = run("if (1 < 2) print \"yes\"; else print \"no\"; if (nil) print 1;");
    assert_eq!(out, vec![s("yes")]);
    assert_eq!(value("if (false) 1; else 2;"), n(2));
}

#[test]
fn while_repeats_while_the_condition_holds() {
    let (result, out) = run("var i = 0; while (i < 3) { print i; i = i + 1; }");
    assert_eq!(result, Ok(None));
    assert_eq!(out, vec![n(0), n(1), n(2)]);
}

#[test]
fn the_value_is_that_of_the_last_statement() {
    assert_eq!(run("1; var x = 2;").0, Ok(None));
    assert_eq!(run("var x = 2; x + 1;").0, Ok(Some(n(3))));
}

#[test]
fn a_failure_stops_the_program_after_what_it_printed() {
    let (result, out) = run("print 1; print x; print 2;");
    assert_eq!(result, Err(RuntimeError::UndefinedVariable));
    assert_eq!(out, vec![n(1)]);
}

#[test]
fn variables_persist_from_one_run_to_the_next() {
    let mut interpreter = Interpreter::new();
    let first = parse("var a = 1;").unwrap();
    assert_eq!(interpreter.run(&first), None);
    let second = parse("a + 1;").unwrap();
    assert_eq!(interpreter.run(&second), Some(n(2)));
}

#[test]
fn invalid_operators_and_names_in_a_built_tree() {
    let mut interpreter = Interpreter::new();
    let bad_binary = vec![Stmt::Expression(Expr::build_binary(
        Expr::build_literal(Token::Nil),
        Token::Comma,
        Expr::build_literal(Token::Nil),
    ))];
    assert_eq!(interpreter.try_run(&bad_binary), Err(RuntimeError::InvalidOperator));
    let bad_unary = vec![Stmt::Expression(Expr::build_unary(
        Token::Plus,
        Expr::build_literal(Token::Nil),
    ))];
    assert_eq!(interpreter.try_run(&bad_unary), Err(RuntimeError::InvalidOperator));
    let bad_name = vec![Stmt::Expression(Expr::build_variable(Token::Nil))];
    assert_eq!(interpreter.try_run(&bad_name), Err(RuntimeError::NotAnIdentifier));
    let bad_target = vec![Stmt::Expression(Expr::build_assignment(
        Token::Nil,
        Expr::build_literal(Token::True),
    ))];
    assert_eq!(interpreter.try_run(&bad_target), Err(RuntimeError::NotAnIdentifier));
}

#[test]
fn environment_reads_writes_and_scopes() {
    let mut env = Environment::new();
    env.set(&Token::Identifier("a".to_string()), Some(n(1)));
    assert_eq!(env.get("a"), Some(n(1)));
    env.assign("a", n(2));
    assert_eq!(env.get("a"), Some(n(2)));
    env.assign("missing", n(3));
    assert_eq!(env.get("missing"), None);
    let mut inner = Environment::new_with_enclosing(env);
    inner.set(&Token::Identifier("a".to_string()), Some(n(9)));
    inner.assign("a", n(10));
    assert_eq!(inner.get("a"), Some(n(10)));
    let outer = inner.into_enclosing();
    assert_eq!(outer.get("a"), Some(n(2)));
    assert_eq!(
        outer.get_token(&Token::Identifier("a".to_string())),
        Ok(Some(n(2)))
    );
    assert_eq!(outer.get_token(&Token::Nil), Err(RuntimeError::NotAnIdentifier));
}

#[test]
fn object_operations_directly() {
    assert_eq!(n(2).add(n(3)), Ok(n(5)));
    assert_eq!(n(2).sub(n(3)), Ok(n(-1)));
    assert_eq!(n(6).mult(n(7)), Ok(n(42)));
    assert_eq!(n(-9).div(n(4)), Ok(n(-2)));
    assert_eq!(n(1).equal(n(1)), Object::Boolean(true));
    assert_eq!(n(1).nequal(n(2)), Object::Boolean(true));
    assert_eq!(n(5).negate(), Ok(n(-5)));
    assert_eq!(Object::Boolean(false).bang(), Ok(Object::Boolean(true)));
    assert_eq!(n(1).less(n(2)), Ok(Object::Boolean(true)));
    assert_eq!(n(2).less_eq(n(1)), Ok(Object::Boolean(false)));
    assert_eq!(n(2).greater(n(1)), Ok(Object::Boolean(true)));
    assert_eq!(n(1).greater_eq(n(1)), Ok(Object::Boolean(true)));
    assert!(!Object::Null.truth_value());
    assert!(!Object::Boolean(false).truth_value());
    assert!(n(0).truth_value());
    assert!(s("").truth_value());
}

#[test]
fn a_failure_keeps_the_state_it_reached() {
    let mut interpreter = Interpreter::new();
    let program = parse("var a = 1; print a; a = 2; print missing; a = 3;").unwrap();
    assert_eq!(interpreter.try_run(&program), Err(RuntimeError::UndefinedVariable));
    assert_eq!(interpreter.take_output(), vec![n(1)]);
    let read = parse("a;").unwrap();
    assert_eq!(interpreter.run(&read), Some(n(2)));
}

#[test]
fn an_assignment_before_a_failing_operand_stays() {
    let mut interpreter = Interpreter::new();
    let program = parse("var a = 1; (a = 7) + missing;").unwrap();
    assert_eq!(interpreter.try_run(&program), Err(RuntimeError::UndefinedVariable));
    let read = parse("a;").unwrap();
    assert_eq!(interpreter.run(&read), Some(n(7)));
}

#[test]
fn a_failing_block_leaves_its_scope() {
    let mut interpreter = Interpreter::new();
    let program = parse("var a = 1; { var b = 2; a = 5; missing; }").unwrap();
    assert_eq!(interpreter.try_run(&program), Err(RuntimeError::UndefinedVariable));
    assert_eq!(
        interpreter.try_run(&parse("b;").unwrap()),
        Err(RuntimeError::UndefinedVariable)
    );
    assert_eq!(interpreter.run(&parse("a;").unwrap()), Some(n(5)));
}

#[test]
fn a_fresh_interpreter_binds_nothing() {
    let mut interpreter = Interpreter::new();
    assert_eq!(interpreter.run(&[]), None);
    let read = vec![Stmt::Expression(Expr::build_variable(Token::Identifier(
        "anything".to_string(),
    )))];
    assert_eq!(interpreter.try_run(&read), Err(RuntimeError::UndefinedVariable));
    assert!(interpreter.take_output().is_empty());
}

#[test]
fn print_text_of_each_kind() {
    assert_eq!(n(0).print_text(), "0");
    assert_eq!(n(42).print_text(), "42");
    assert_eq!(n(-1207).print_text(), "-1207");
    let big = value("100000000000000000000 * 3;");
    assert_eq!(big.print_text(), "300000000000000000000");
    assert_eq!(Object::Boolean(true).print_text(), "true");
    assert_eq!(Object::Boolean(false).print_text(), "false");
    assert_eq!(s("a b").print_text(), "a b");
    assert_eq!(Object::Null.print_text(), "(nil)");
}

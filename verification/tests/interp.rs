use rublox::LoxError;
use rublox::interp::LoxValue::{LBoolean, LNumber, LString};
use rublox::environ::Environment;
use rublox::interp::RunResult;
use rublox::interp::interpret;
use rublox::interp::interpret_expression;
use rublox::parse::parse;
use rublox::parse::parse_expression_string;
use rublox::tokenize::tokenize;

use rublox::interp::LoxValue;

fn run(src: &str) -> (Vec<LoxValue>, RunResult) {
    let tokens = tokenize(&String::from(src)).unwrap();
    let program = parse(tokens).unwrap();
    interpret(&program, 10_000)
}

#[test]
fn test_interpret() {
    let expr = parse_expression_string("2 + 3 * 4").unwrap();
    let env = Environment::new();
    assert_eq!(interpret_expression(&expr, &env, 0), Ok(LNumber(14.0f64.to_bits())));
    let expr = parse_expression_string("(2 + 3) * (4 + 5)").unwrap();
    assert_eq!(interpret_expression(&expr, &env, 0), Ok(LNumber(45.0f64.to_bits())));
    let expr = parse_expression_string("(2 + 3) < (4 + 5)").unwrap();
    assert_eq!(interpret_expression(&expr, &env, 0), Ok(LBoolean(true)));
}

#[test]
fn test_arithmetic_values() {
    let env = Environment::new();
    for (src, expected) in [
        ("2 + 3", 5.0),
        ("7 - 2", 5.0),
        ("3 * 4", 12.0),
        ("3 / 4", 0.75),
        ("1.25 + 1.25", 2.5),
        ("-3", -3.0),
        ("1 / 0", f64::INFINITY),
        ("0 - 1 / 0", f64::NEG_INFINITY),
    ] {
        let expr = parse_expression_string(src).unwrap();
        assert_eq!(
            interpret_expression(&expr, &env, 0),
            Ok(LNumber(expected.to_bits())),
            "{}",
            src
        );
    }
}

#[test]
fn test_number_comparisons() {
    let env = Environment::new();
    for (src, expected) in [
        ("1 < 2", true),
        ("2 < 1", false),
        ("1 <= 1", true),
        ("2 > 1", true),
        ("1 >= 2", false),
        ("1 == 1", true),
        ("1 != 1", false),
        ("0 - 0 == 0", true),
        // NaN compares unequal even to itself
        ("0 / 0 == 0 / 0", false),
        ("0 / 0 != 0 / 0", true),
        ("0 / 0 < 1", false),
        ("1 / 0 > 1", true),
    ] {
        let expr = parse_expression_string(src).unwrap();
        assert_eq!(interpret_expression(&expr, &env, 0), Ok(LBoolean(expected)), "{}", src);
    }
}

#[test]
fn test_string_operations() {
    let env = Environment::new();
    let expr = parse_expression_string("\"foo\" + \"bar\"").unwrap();
    assert_eq!(
        interpret_expression(&expr, &env, 0),
        Ok(LString(String::from("foobar")))
    );
    let expr = parse_expression_string("\"a\" == \"a\"").unwrap();
    assert_eq!(interpret_expression(&expr, &env, 0), Ok(LBoolean(true)));
    let expr = parse_expression_string("\"a\" != \"b\"").unwrap();
    assert_eq!(interpret_expression(&expr, &env, 0), Ok(LBoolean(true)));
}

#[test]
fn test_type_mismatch() {
    let env = Environment::new();
    for src in ["\"1\" + true", "1 < \"a\"", "1 + \"a\"", "!3", "-true", "nil == nil"] {
        let expr = parse_expression_string(src).unwrap();
        assert_eq!(
            interpret_expression(&expr, &env, 0),
            Err(LoxError::TypeMismatch),
            "{}",
            src
        );
    }
}

#[test]
fn test_undefined_variable() {
    // a reference to a never-declared name fails
    let (_, r) = run("print y;");
    assert_eq!(
        r,
        RunResult::Aborted(LoxError::UndefinedVariable { name: String::from("y") })
    );
    // an assignment into a never-declared name fails
    let (_, r) = run("x = 1;");
    assert_eq!(
        r,
        RunResult::Aborted(LoxError::UndefinedVariable { name: String::from("x") })
    );
    // declaring the name first makes both succeed
    let (out, r) = run("var x = 1; x = 2; print x;");
    assert_eq!(r, RunResult::Finished);
    assert_eq!(out, vec![LNumber(2.0f64.to_bits())]);
}

#[test]
fn test_scoping() {
    // shadowing does not leak: the outer x keeps its value
    let (out, r) = run("var x = 1; { var x = 2; } print x;");
    assert_eq!(r, RunResult::Finished);
    assert_eq!(out, vec![LNumber(1.0f64.to_bits())]);
    // assignment through a block writes the outer binding
    let (out, r) = run("var x = 1; { x = 2; } print x;");
    assert_eq!(r, RunResult::Finished);
    assert_eq!(out, vec![LNumber(2.0f64.to_bits())]);
    // a block reads outer names through the chain
    let (out, r) = run("var x = 40; { var y = 2; print x + y; }");
    assert_eq!(r, RunResult::Finished);
    assert_eq!(out, vec![LNumber(42.0f64.to_bits())]);
}

#[test]
fn test_truthiness() {
    // zero is truthy
    let (out, _) = run("if 0 print 1; else print 2;");
    assert_eq!(out, vec![LNumber(1.0f64.to_bits())]);
    // the empty string is truthy
    let (out, _) = run("if \"\" print 1; else print 2;");
    assert_eq!(out, vec![LNumber(1.0f64.to_bits())]);
    // true is truthy
    let (out, _) = run("if true print 1; else print 2;");
    assert_eq!(out, vec![LNumber(1.0f64.to_bits())]);
    // nil and false are falsy
    let (out, _) = run("if nil print 1; else print 2;");
    assert_eq!(out, vec![LNumber(2.0f64.to_bits())]);
    let (out, _) = run("if false print 1; else print 2;");
    assert_eq!(out, vec![LNumber(2.0f64.to_bits())]);
}

#[test]
fn test_while_loop() {
    let (out, r) = run("var i = 0; var s = 0; while i < 5 { s = s + i; i = i + 1; } print s;");
    assert_eq!(r, RunResult::Finished);
    assert_eq!(out, vec![LNumber(10.0f64.to_bits())]);
}

#[test]
fn test_while_out_of_fuel() {
    let tokens = tokenize(&String::from("print 1; while true { } print 2;")).unwrap();
    let program = parse(tokens).unwrap();
    let (out, r) = interpret(&program, 7);
    assert_eq!(r, RunResult::OutOfFuel);
    // output printed before the loop survives
    assert_eq!(out, vec![LNumber(1.0f64.to_bits())]);
}

#[test]
fn test_invalid_assignment_target() {
    let (_, r) = run("1 = 2;");
    assert_eq!(r, RunResult::Aborted(LoxError::InvalidAssignmentTarget));
}

#[test]
fn test_output_survives_error() {
    let (out, r) = run("print 1; print 2; print \"x\" + 1;");
    assert_eq!(r, RunResult::Aborted(LoxError::TypeMismatch));
    assert_eq!(out, vec![LNumber(1.0f64.to_bits()), LNumber(2.0f64.to_bits())]);
}

#[test]
fn test_print_order() {
    let (out, r) = run("print 1; print \"two\"; print true; print nil;");
    assert_eq!(r, RunResult::Finished);
    assert_eq!(
        out,
        vec![
            LNumber(1.0f64.to_bits()),
            LString(String::from("two")),
            LBoolean(true),
            LoxValue::LNil,
        ]
    );
}

use rublox::LoxError;
use rublox::ast::Expression::{EBinary, EBoolean, EGroup, EName, ENil, ENumber, EString, EUnary};
use rublox::ast::Op::{OpDiv, OpEq, OpGe, OpGt, OpLe, OpLt, OpMinus, OpMult, OpNe, OpNot, OpPlus};
use rublox::ast::Statement::{SAssignment, SBlock, SExpr, SIf, SPrint, SVar};
use rublox::ast::Statements;
use rublox::parse::parse_expression_string;
use rublox::parse::parse_statement_string;

#[test]
fn test_primaries() {
    assert_eq!(parse_expression_string("1").unwrap(), ENumber(String::from("1")));
    assert_eq!(parse_expression_string("1.25").unwrap(), ENumber(String::from("1.25")));
    assert_eq!(parse_expression_string("true").unwrap(), EBoolean(true));
    assert_eq!(parse_expression_string("false").unwrap(), EBoolean(false));
    assert_eq!(parse_expression_string("nil").unwrap(), ENil);
    assert_eq!(parse_expression_string("xyz").unwrap(), EName(String::from("xyz")));
}

#[test]
fn test_unary() {
    assert_eq!(
        parse_expression_string("-1").unwrap(),
        EUnary(OpMinus, Box::new(ENumber(String::from("1"))))
    );
    assert_eq!(
        parse_expression_string("!true").unwrap(),
        EUnary(OpNot, Box::new(EBoolean(true)))
    );
}

#[test]
fn test_factor() {
    assert_eq!(
        parse_expression_string("3*4").unwrap(),
        EBinary(
            OpMult,
            Box::new(ENumber(String::from("3"))),
            Box::new(ENumber(String::from("4")))
        )
    );
    assert_eq!(
        parse_expression_string("3/4").unwrap(),
        EBinary(
            OpDiv,
            Box::new(ENumber(String::from("3"))),
            Box::new(ENumber(String::from("4")))
        )
    );
}

#[test]
fn test_term() {
    assert_eq!(
        parse_expression_string("3+4").unwrap(),
        EBinary(
            OpPlus,
            Box::new(ENumber(String::from("3"))),
            Box::new(ENumber(String::from("4")))
        )
    );
    assert_eq!(
        parse_expression_string("3-4").unwrap(),
        EBinary(
            OpMinus,
            Box::new(ENumber(String::from("3"))),
            Box::new(ENumber(String::from("4")))
        )
    );
}

#[test]
fn test_comparison() {
    assert_eq!(
        parse_expression_string("3<4").unwrap(),
        EBinary(
            OpLt,
            Box::new(ENumber(String::from("3"))),
            Box::new(ENumber(String::from("4")))
        )
    );
    assert_eq!(
        parse_expression_string("3<=4").unwrap(),
        EBinary(
            OpLe,
            Box::new(ENumber(String::from("3"))),
            Box::new(ENumber(String::from("4")))
        )
    );
    assert_eq!(
        parse_expression_string("3>4").unwrap(),
        EBinary(
            OpGt,
            Box::new(ENumber(String::from("3"))),
            Box::new(ENumber(String::from("4")))
        )
    );
    assert_eq!(
        parse_expression_string("3>=4").unwrap(),
        EBinary(
            OpGe,
            Box::new(ENumber(String::from("3"))),
            Box::new(ENumber(String::from("4")))
        )
    );
}

#[test]
fn test_equality() {
    assert_eq!(
        parse_expression_string("3==4").unwrap(),
        EBinary(
            OpEq,
            Box::new(ENumber(String::from("3"))),
            Box::new(ENumber(String::from("4")))
        )
    );
    assert_eq!(
        parse_expression_string("3!=4").unwrap(),
        EBinary(
            OpNe,
            Box::new(ENumber(String::from("3"))),
            Box::new(ENumber(String::from("4")))
        )
    );
}

#[test]
fn test_statement() {
    assert_eq!(
        parse_statement_string("print 3;").unwrap(),
        SPrint(ENumber(String::from("3")))
    );
    assert_eq!(parse_statement_string("3;").unwrap(), SExpr(ENumber(String::from("3"))));
    assert_eq!(
        parse_statement_string("var x = 3;").unwrap(),
        SVar(String::from("x"), ENumber(String::from("3")))
    );
    assert_eq!(
        parse_statement_string("if true { } else { }").unwrap(),
        SIf(
            EBoolean(true),
            Box::new(SBlock(Statements::new())),
            Box::new(SBlock(Statements::new()))
        )
    );
}

#[test]
fn test_parse_precedence_tree() {
    // multiplication binds tighter than addition
    assert_eq!(
        parse_expression_string("2 + 3 * 4").unwrap(),
        EBinary(
            OpPlus,
            Box::new(ENumber(String::from("2"))),
            Box::new(EBinary(
                OpMult,
                Box::new(ENumber(String::from("3"))),
                Box::new(ENumber(String::from("4")))
            ))
        )
    );
}

#[test]
fn test_parse_left_associative() {
    // 1 - 2 - 3 folds from the left
    assert_eq!(
        parse_expression_string("1 - 2 - 3").unwrap(),
        EBinary(
            OpMinus,
            Box::new(EBinary(
                OpMinus,
                Box::new(ENumber(String::from("1"))),
                Box::new(ENumber(String::from("2")))
            )),
            Box::new(ENumber(String::from("3")))
        )
    );
}

#[test]
fn test_parse_group() {
    assert_eq!(
        parse_expression_string("(1)").unwrap(),
        EGroup(Box::new(ENumber(String::from("1"))))
    );
}

#[test]
fn test_parse_string_literal() {
    assert_eq!(
        parse_expression_string("\"hello\"").unwrap(),
        EString(String::from("hello"))
    );
}

#[test]
fn test_parse_assignment_statement() {
    assert_eq!(
        parse_statement_string("x = 3;").unwrap(),
        SAssignment(EName(String::from("x")), ENumber(String::from("3")))
    );
    // a non-name target still parses; it is rejected at evaluation time
    assert_eq!(
        parse_statement_string("1 = 2;").unwrap(),
        SAssignment(ENumber(String::from("1")), ENumber(String::from("2")))
    );
}

#[test]
fn test_parse_var_without_initializer_defaults_nil() {
    assert_eq!(
        parse_statement_string("var x;").unwrap(),
        SVar(String::from("x"), ENil)
    );
}

#[test]
fn test_parse_unclosed_group_is_error() {
    let r = parse_expression_string("(1 + 2");
    assert_eq!(
        r,
        Err(LoxError::SyntaxError {
            message: String::from("Expect ')' after expression."),
            line: 1
        })
    );
}

#[test]
fn test_parse_missing_semicolon_is_error() {
    let r = parse_statement_string("print 3");
    assert_eq!(
        r,
        Err(LoxError::SyntaxError {
            message: String::from("Expect ';' after expression."),
            line: 1
        })
    );
}

#[test]
fn test_parse_if_requires_else() {
    let r = parse_statement_string("if true { }");
    assert_eq!(
        r,
        Err(LoxError::SyntaxError { message: String::from("Expected 'else'"), line: 1 })
    );
}

#[test]
fn test_parse_missing_primary_is_error() {
    let r = parse_expression_string("+");
    assert_eq!(
        r,
        Err(LoxError::SyntaxError { message: String::from("Expected a primary"), line: 1 })
    );
}

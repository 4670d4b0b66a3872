use rublox::ast::Expression;
use rublox::ast::Expression::{EBinary, EBoolean, EGroup, EName, ENil, ENumber, EString, EUnary};
use rublox::ast::Op::{OpMinus, OpMult, OpNot, OpPlus};
use rublox::ast::Statement;
use rublox::ast::Statement::{SAssignment, SBlock, SPrint, SVar, SWhile};
use rublox::ast::format_expression;
use rublox::ast::format_statement;
use rublox::parse::parse_expression_string;
use rublox::parse::parse_statement_string;

#[test]
fn test_formatting() {
    // Example encoding of expressions

    // 2 + 3
    let expr1 = EBinary(
        OpPlus,
        Box::new(ENumber(String::from("2"))),
        Box::new(ENumber(String::from("3"))),
    );
    let fmt1 = format_expression(&expr1);
    assert_eq!(fmt1, "2 + 3");

    // 2 + (3 * 4)
    let expr2 = EBinary(
        OpPlus,
        Box::new(ENumber(String::from("2"))),
        Box::new(EGroup(Box::new(EBinary(
            OpMult,
            Box::new(ENumber(String::from("3"))),
            Box::new(ENumber(String::from("4"))),
        )))),
    );
    let fmt2 = format_expression(&expr2);
    assert_eq!(fmt2, "2 + (3 * 4)");

    // print 2;
    let stmt3 = SPrint(ENumber(String::from("2")));
    let fmt3 = format_statement(&stmt3);
    assert_eq!(fmt3, "print 2;\n");
}

fn round_trips(expr: Expression) {
    let text = format_expression(&expr);
    let back = parse_expression_string(&text).unwrap();
    assert_eq!(back, expr, "{}", text);
}

#[test]
fn test_round_trip_formatting() {
    // rendering a directly built tree and re-parsing reproduces it
    round_trips(ENumber(String::from("1.25")));
    round_trips(EString(String::from("hello world")));
    round_trips(EBoolean(true));
    round_trips(EBoolean(false));
    round_trips(ENil);
    round_trips(EName(String::from("xyz")));
    round_trips(EUnary(OpMinus, Box::new(ENumber(String::from("7")))));
    round_trips(EUnary(OpNot, Box::new(EBoolean(false))));
    round_trips(EBinary(
        OpPlus,
        Box::new(ENumber(String::from("2"))),
        Box::new(EBinary(
            OpMult,
            Box::new(ENumber(String::from("3"))),
            Box::new(ENumber(String::from("4"))),
        )),
    ));
    round_trips(EGroup(Box::new(EBinary(
        OpPlus,
        Box::new(EGroup(Box::new(ENumber(String::from("2"))))),
        Box::new(EName(String::from("n"))),
    ))));
}

#[test]
fn test_statement_formatting() {
    assert_eq!(
        format_statement(&SVar(String::from("x"), ENumber(String::from("3")))),
        "var x = 3;\n"
    );
    assert_eq!(
        format_statement(&SAssignment(EName(String::from("x")), ENumber(String::from("2")))),
        "x = 2;\n"
    );
    assert_eq!(
        format_statement(&SWhile(EBoolean(true), Box::new(SBlock(Vec::new())))),
        "while true {\n}\n"
    );
    assert_eq!(
        format_statement(&SBlock(vec![SPrint(ENumber(String::from("2")))])),
        "{\nprint 2;\n}\n"
    );
}

fn statement_round_trips(stmt: Statement) {
    let text = format_statement(&stmt);
    let back = parse_statement_string(&text).unwrap();
    assert_eq!(back, stmt, "{}", text);
}

#[test]
fn test_statement_round_trip() {
    statement_round_trips(SPrint(ENumber(String::from("2"))));
    statement_round_trips(SVar(String::from("x"), ENumber(String::from("3"))));
    statement_round_trips(SAssignment(EName(String::from("x")), ENumber(String::from("2"))));
    statement_round_trips(SWhile(
        EBoolean(true),
        Box::new(SBlock(vec![SPrint(ENumber(String::from("1")))])),
    ));
}

#[test]
fn test_round_trip_matches_spec_example() {
    // parsing "2 + 3 * 4" yields binary(+, 2, binary(*, 3, 4))
    let tree = EBinary(
        OpPlus,
        Box::new(ENumber(String::from("2"))),
        Box::new(EBinary(
            OpMult,
            Box::new(ENumber(String::from("3"))),
            Box::new(ENumber(String::from("4"))),
        )),
    );
    assert_eq!(parse_expression_string("2 + 3 * 4").unwrap(), tree);
    assert_eq!(parse_expression_string(&format_expression(&tree)).unwrap(), tree);
}

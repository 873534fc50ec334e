use pratt_parser::ast::{
    Expression, Identifier, InfixExpression, InfixOperator, IntegerLiteral, LetStatement,
    ReturnStatement, Statement,
};
use pratt_parser::lexer::Lexer;
use pratt_parser::parser::Parser;

#[test]
fn integer_rendering_is_decimal() {
    let zero = Expression::Integer(IntegerLiteral { value: 0 });
    assert_eq!(zero.string(), "0");
    let large = Expression::Integer(IntegerLiteral { value: 9223372036854775807 });
    assert_eq!(large.string(), "9223372036854775807");
    let negative = Expression::Integer(IntegerLiteral { value: -42 });
    assert_eq!(negative.string(), "-42");
    let smallest = Expression::Integer(IntegerLiteral { value: i64::MIN });
    assert_eq!(smallest.string(), "-9223372036854775808");
}

#[test]
fn statement_rendering() {
    let let_stmt = Statement::LetStatement(LetStatement {
        name: Identifier {
            value: "x".to_string(),
        },
    });
    assert_eq!(let_stmt.string(), "let x;");
    let ret_stmt = Statement::ReturnStatement(ReturnStatement {});
    assert_eq!(ret_stmt.string(), "return;");
    let expr_stmt = Expression::InfixExpression(InfixExpression {
        left: Box::new(Expression::Integer(IntegerLiteral { value: 1 })),
        operator: InfixOperator::Lt,
        right: Box::new(Expression::Integer(IntegerLiteral { value: 2 })),
    });
    assert_eq!(expr_stmt.string(), "(1 < 2)");
}

#[test]
fn multi_digit_literals_round_trip() {
    let l = Lexer::new("838383 + 1000");
    let mut p = Parser::new(l);
    let program = p.parse();
    assert_eq!(p.errors_len(), 0);
    assert_eq!(program.string(), "(838383 + 1000)");
}

use pratt_parser::ast::Statement;
use pratt_parser::lexer::Lexer;
use pratt_parser::parser::Parser;

#[test]
fn missing_assign_records_error_without_abort() {
    let l = Lexer::new("let x 5;");
    let mut p = Parser::new(l);
    let _program = p.parse();
    assert!(p.errors_len() > 0);
    let errors = p.get_errors();
    assert_eq!(
        errors[0],
        "expected next token to be Assign, got Int(5) instead".to_string()
    );
}

#[test]
fn missing_identifier_records_error() {
    let l = Lexer::new("let = 5;");
    let mut p = Parser::new(l);
    let _program = p.parse();
    assert!(p.errors_len() > 0);
    let errors = p.get_errors();
    assert_eq!(
        errors[0],
        "expected next token to be Ident, got Assign instead".to_string()
    );
}

#[test]
fn missing_closing_paren_records_error() {
    let l = Lexer::new("(5 + 5");
    let mut p = Parser::new(l);
    let program = p.parse();
    assert_eq!(program.statements.len(), 0);
    let errors = p.get_errors();
    assert_eq!(errors.len(), 1);
    assert_eq!(
        errors[0],
        "expected next token to be RParen, got Eof instead".to_string()
    );
}

#[test]
fn token_without_prefix_rule_records_error() {
    let l = Lexer::new("+ 5");
    let mut p = Parser::new(l);
    let program = p.parse();
    let errors = p.get_errors();
    assert_eq!(errors.len(), 1);
    assert_eq!(errors[0], "no prefix parse fn for Plus".to_string());
    // the driver recovers and still parses the trailing integer
    assert_eq!(program.statements.len(), 1);
}

#[test]
fn illegal_character_records_error() {
    let l = Lexer::new("@");
    let mut p = Parser::new(l);
    let program = p.parse();
    assert_eq!(program.statements.len(), 0);
    let errors = p.get_errors();
    assert_eq!(errors.len(), 1);
    assert_eq!(errors[0], "no prefix parse fn for Illegal(@)".to_string());
}

#[test]
fn integer_overflow_fails_silently() {
    // one past the largest signed 64-bit value: the literal yields no
    // expression, and unlike every other failure path, no diagnostic
    let l = Lexer::new("9223372036854775808");
    let mut p = Parser::new(l);
    let program = p.parse();
    assert_eq!(program.statements.len(), 0);
    assert_eq!(p.errors_len(), 0);
}

#[test]
fn largest_integer_parses() {
    let l = Lexer::new("9223372036854775807;");
    let mut p = Parser::new(l);
    let program = p.parse();
    assert_eq!(p.errors_len(), 0);
    assert_eq!(program.statements.len(), 1);
    assert_eq!(program.string(), "9223372036854775807");
}

#[test]
fn two_statement_separation() {
    let l = Lexer::new("3 + 4; -5 * 5");
    let mut p = Parser::new(l);
    let program = p.parse();
    assert_eq!(p.errors_len(), 0);
    assert_eq!(program.statements.len(), 2);
    assert_eq!(program.string(), "(3 + 4)((-5) * 5)");
}

#[test]
fn grouping_overrides_precedence() {
    let cases = vec![
        ("(5 + 5) * 2", "((5 + 5) * 2)"),
        ("2 / (5 + 5)", "(2 / (5 + 5))"),
    ];
    for (input, expected) in cases {
        let l = Lexer::new(input);
        let mut p = Parser::new(l);
        let program = p.parse();
        assert_eq!(p.errors_len(), 0);
        assert_eq!(program.string(), expected);
    }
}

#[test]
fn unterminated_let_stops_at_end_of_input() {
    let l = Lexer::new("let x = 5");
    let mut p = Parser::new(l);
    let program = p.parse();
    assert_eq!(p.errors_len(), 0);
    assert_eq!(program.statements.len(), 1);
    assert!(matches!(&program.statements[0], Statement::LetStatement(_)));
}

#[test]
fn unterminated_return_stops_at_end_of_input() {
    let l = Lexer::new("return 5");
    let mut p = Parser::new(l);
    let program = p.parse();
    assert_eq!(p.errors_len(), 0);
    assert_eq!(program.statements.len(), 1);
    assert!(matches!(
        &program.statements[0],
        Statement::ReturnStatement(_)
    ));
}

#[test]
fn empty_input_parses_to_empty_program() {
    let l = Lexer::new("");
    let mut p = Parser::new(l);
    let program = p.parse();
    assert_eq!(program.statements.len(), 0);
    assert_eq!(p.errors_len(), 0);
    assert_eq!(program.string(), "");
}

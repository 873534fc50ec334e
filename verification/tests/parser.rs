use pratt_parser::ast::{Expression, InfixOperator, PrefixOperator, Statement};
use pratt_parser::lexer::Lexer;
use pratt_parser::parser::Parser;

struct BoolTest {
    input: &'static str,
    exp: bool,
}

struct PrefixIntTest {
    input: &'static str,
    oper: PrefixOperator,
    int_val: i64,
}

struct PrefixBoolTest {
    input: &'static str,
    oper: PrefixOperator,
    bool_val: bool,
}

struct InfixIntTest {
    input: &'static str,
    lval: i64,
    oper: InfixOperator,
    rval: i64,
}

struct InfixBoolTest {
    input: &'static str,
    lval: bool,
    oper: InfixOperator,
    rval: bool,
}

struct PrecedenceTest {
    input: &'static str,
    exp: &'static str,
}

fn test_let_statement(stmt: &Statement, name: &str) {
    if let Statement::LetStatement(ls) = stmt {
        let lit = ls.token_literal();
        assert_eq!(lit, "let");
        assert_eq!(ls.name.value.to_string(), name.to_owned());
        assert_eq!(ls.name.token_literal(), name.to_owned());
    } else {
        println!("{:#?} is not a let statement", stmt);
        assert!(false);
    }
}

fn test_integer_exp(exp: &Expression, exp_int: i64) {
    if let Expression::Integer(il) = exp {
        assert_eq!(il.value, exp_int);
    } else {
        println!("{:#?} is not an integer literal", exp);
        assert!(false);
    }
}

fn test_boolean_exp(exp: &Expression, exp_bool: bool) {
    if let Expression::Boolean(bl) = exp {
        assert_eq!(bl.value, exp_bool);
    } else {
        println!("{:#?} is not a boolean literal", exp);
        assert!(false);
    }
}

fn check_errors(p: &Parser) {
    if p.errors_len() > 0 {
        for e in p.get_errors() {
            println!("{}", e);
        }
        panic!("parser had errors")
    }
}

#[test]
fn test_let_statements() {
    let input = "let x = 5;
        let y = 10;
        let foobar = 838383;";
    let l = Lexer::new(&input);
    let mut p = Parser::new(l);
    let program = p.parse();
    check_errors(&p);
    let exps = vec!["x", "y", "foobar"];
    assert_eq!(program.statements.len(), 3);
    for (i, exp) in exps.iter().enumerate() {
        let stmt = &program.statements[i];
        test_let_statement(&stmt, exp);
    }
}

#[test]
fn test_return_statements() {
    let input = "return 5;
        return 10;
        return 993322;";
    let l = Lexer::new(&input);
    let mut p = Parser::new(l);
    let program = p.parse();
    check_errors(&p);
    assert_eq!(program.statements.len(), 3);
    for stmt in program.statements.iter() {
        if let Statement::ReturnStatement(rs) = stmt {
            assert_eq!(rs.token_literal(), "return".to_string());
        } else {
            let s = format!("{:#?} is not a return statement", stmt);
            panic!("{}", s);
        }
    }
}

#[test]
fn test_identifier_expression() {
    let input = "foobar";
    let l = Lexer::new(&input);
    let mut p = Parser::new(l);
    let program = p.parse();
    check_errors(&p);
    assert_eq!(program.statements.len(), 1);
    let stmt = &program.statements[0];
    if let Statement::ExpressionStatement(es) = stmt {
        if let Expression::Identifier(i) = &es.expression {
            assert_eq!(i.value.to_string(), "foobar".to_string());
        } else {
            let s = format!("{:#?} is not an identifier expression", es.expression);
            panic!("{}", s);
        }
    } else {
        let s = format!("{:#?} is not an expression statement", stmt);
        panic!("{}", s);
    }
}

#[test]
fn test_integer_literal_expression() {
    let input = "5;";
    let l = Lexer::new(&input);
    let mut p = Parser::new(l);
    let program = p.parse();
    check_errors(&p);
    assert_eq!(program.statements.len(), 1);
    let stmt = &program.statements[0];
    if let Statement::ExpressionStatement(es) = stmt {
        if let Expression::Integer(il) = &es.expression {
            assert_eq!(il.value, 5);
        } else {
            let s = format!("{:#?} is not an integer literal expression", es.expression);
            panic!("{}", s);
        }
    } else {
        let s = format!("{:#?} is not an expression statement", stmt);
        panic!("{}", s);
    }
}

#[test]
fn test_prefix_expressoins() {
    let prefix_int_tests = vec![
        PrefixIntTest {
            input: "!5;",
            oper: PrefixOperator::Bang,
            int_val: 5,
        },
        PrefixIntTest {
            input: "-15;",
            oper: PrefixOperator::Minus,
            int_val: 15,
        },
    ];
    let prefix_bool_tests = vec![
        PrefixBoolTest {
            input: "!true;",
            oper: PrefixOperator::Bang,
            bool_val: true,
        },
        PrefixBoolTest {
            input: "!false;",
            oper: PrefixOperator::Bang,
            bool_val: false,
        },
    ];
    for pt in prefix_int_tests.iter() {
        let l = Lexer::new(pt.input);
        let mut p = Parser::new(l);
        let program = p.parse();
        check_errors(&p);
        assert_eq!(program.statements.len(), 1);
        let stmt = &program.statements[0];
        if let Statement::ExpressionStatement(es) = stmt {
            if let Expression::PrefixExpression(pe) = &es.expression {
                assert_eq!(pe.operator, pt.oper);
                test_integer_exp(&pe.right, pt.int_val);
            } else {
                let s = format!("{:#?} is not a prefix expression", es.expression);
                panic!("{}", s);
            }
        } else {
            let s = format!("{:#?} is not an expression statement", stmt);
            panic!("{}", s);
        }
    }

    for pt in prefix_bool_tests.iter() {
        let l = Lexer::new(pt.input);
        let mut p = Parser::new(l);
        let program = p.parse();
        check_errors(&p);
        assert_eq!(program.statements.len(), 1);
        let stmt = &program.statements[0];
        if let Statement::ExpressionStatement(es) = stmt {
            if let Expression::PrefixExpression(pe) = &es.expression {
                assert_eq!(pe.operator, pt.oper);
                test_boolean_exp(&pe.right, pt.bool_val);
            } else {
                let s = format!("{:#?} is not a prefix expression", es.expression);
                panic!("{}", s);
            }
        } else {
            let s = format!("{:#?} is not an expression statement", stmt);
            panic!("{}", s);
        }
    }
}

#[test]
fn test_infix_expressions() {
    let int_tests = vec![
        InfixIntTest {
            input: "5 + 5",
            lval: 5,
            oper: InfixOperator::Plus,
            rval: 5,
        },
        InfixIntTest {
            input: "5 - 5",
            lval: 5,
            oper: InfixOperator::Minus,
            rval: 5,
        },
        InfixIntTest {
            input: "5 * 5",
            lval: 5,
            oper: InfixOperator::Asterisk,
            rval: 5,
        },
        InfixIntTest {
            input: "5 / 5",
            lval: 5,
            oper: InfixOperator::Slash,
            rval: 5,
        },
        InfixIntTest {
            input: "5 > 5",
            lval: 5,
            oper: InfixOperator::Gt,
            rval: 5,
        },
        InfixIntTest {
            input: "5 < 5",
            lval: 5,
            oper: InfixOperator::Lt,
            rval: 5,
        },
        InfixIntTest {
            input: "5 == 5",
            lval: 5,
            oper: InfixOperator::Eq,
            rval: 5,
        },
        InfixIntTest {
            input: "5 != 5",
            lval: 5,
            oper: InfixOperator::NotEq,
            rval: 5,
        },
    ];

    let bool_tests = vec![
        InfixBoolTest {
            input: "true == true",
            lval: true,
            oper: InfixOperator::Eq,
            rval: true,
        },
        InfixBoolTest {
            input: "true != false",
            lval: true,
            oper: InfixOperator::NotEq,
            rval: false,
        },
        InfixBoolTest {
            input: "false == false",
            lval: false,
            oper: InfixOperator::Eq,
            rval: false,
        },
    ];

    for it in int_tests.iter() {
        let l = Lexer::new(it.input);
        let mut p = Parser::new(l);
        let program = p.parse();
        assert_eq!(program.statements.len(), 1);
        let stmt = &program.statements[0];
        if let Statement::ExpressionStatement(es) = stmt {
            if let Expression::InfixExpression(ie) = &es.expression {
                assert_eq!(ie.operator, it.oper);
                test_integer_exp(&ie.left, it.lval);
                test_integer_exp(&ie.right, it.rval);
            } else {
                let s = format!("{:#?} is not a prefix expression", es.expression);
                panic!("{}", s);
            }
        } else {
            let s = format!("{:#?} is not an expression statement", stmt);
            panic!("{}", s);
        }
    }

    for it in bool_tests.iter() {
        let l = Lexer::new(it.input);
        let mut p = Parser::new(l);
        let program = p.parse();
        assert_eq!(program.statements.len(), 1);
        let stmt = &program.statements[0];
        if let Statement::ExpressionStatement(es) = stmt {
            if let Expression::InfixExpression(ie) = &es.expression {
                assert_eq!(ie.operator, it.oper);
                test_boolean_exp(&ie.left, it.lval);
                test_boolean_exp(&ie.right, it.rval);
            } else {
                let s = format!("{:#?} is not a prefix expression", es.expression);
                panic!("{}", s);
            }
        } else {
            let s = format!("{:#?} is not an expression statement", stmt);
            panic!("{}", s);
        }
    }
}

#[test]
fn operator_precedence() {
    let tests = vec![
        PrecedenceTest {
            input: "-a * b",
            exp: "((-a) * b)",
        },
        PrecedenceTest {
            input: "!-a",
            exp: "(!(-a))",
        },
        PrecedenceTest {
            input: "a + b + c",
            exp: "((a + b) + c)",
        },
        PrecedenceTest {
            input: "a + b - c",
            exp: "((a + b) - c)",
        },
        PrecedenceTest {
            input: "a * b * c",
            exp: "((a * b) * c)",
        },
        PrecedenceTest {
            input: "a * b / c",
            exp: "((a * b) / c)",
        },
        PrecedenceTest {
            input: "a + b / c",
            exp: "(a + (b / c))",
        },
        PrecedenceTest {
            input: "a + b * c + d / e - f",
            exp: "(((a + (b * c)) + (d / e)) - f)",
        },
        PrecedenceTest {
            input: "3 + 4; -5 * 5",
            exp: "(3 + 4)((-5) * 5)",
        },
        PrecedenceTest {
            input: "5 > 4 == 3 < 4",
            exp: "((5 > 4) == (3 < 4))",
        },
        PrecedenceTest {
            input: "5 < 4 != 3 > 4",
            exp: "((5 < 4) != (3 > 4))",
        },
        PrecedenceTest {
            input: "3 + 4 * 5 == 3 * 1 + 4 * 5",
            exp: "((3 + (4 * 5)) == ((3 * 1) + (4 * 5)))",
        },
        PrecedenceTest {
            input: "3 + 4 * 5 == 3 * 1 + 4 * 5",
            exp: "((3 + (4 * 5)) == ((3 * 1) + (4 * 5)))",
        },
        PrecedenceTest {
            input: "true",
            exp: "true",
        },
        PrecedenceTest {
            input: "false",
            exp: "false",
        },
        PrecedenceTest {
            input: "3 > 5 == false",
            exp: "((3 > 5) == false)",
        },
        PrecedenceTest {
            input: "3 < 5 == true",
            exp: "((3 < 5) == true)",
        },
        PrecedenceTest {
            input: "1 + (2 + 3) + 4",
            exp: "((1 + (2 + 3)) + 4)",
        },
        PrecedenceTest {
            input: "(5 + 5) * 2",
            exp: "((5 + 5) * 2)",
        },
        PrecedenceTest {
            input: "2 / (5 + 5)",
            exp: "(2 / (5 + 5))",
        },
        PrecedenceTest {
            input: "-(5 + 5)",
            exp: "(-(5 + 5))",
        },
        PrecedenceTest {
            input: "!(true == true)",
            exp: "(!(true == true))",
        },
    ];

    for t in tests.iter() {
        let l = Lexer::new(t.input);
        let mut p = Parser::new(l);
        let program = p.parse();
        let s = program.string();
        assert_eq!(s, t.exp);
    }
}

#[test]
fn test_boolean_literal() {
    let tests = vec![
        BoolTest {
            input: "true",
            exp: true,
        },
        BoolTest {
            input: "false",
            exp: false,
        },
    ];
    for t in tests.iter() {
        let l = Lexer::new(t.input);
        let mut p = Parser::new(l);
        let program = p.parse();
        check_errors(&p);
        assert_eq!(program.statements.len(), 1);
        let stmt = &program.statements[0];
        if let Statement::ExpressionStatement(es) = stmt {
            test_boolean_exp(&es.expression, t.exp);
        } else {
            let s = format!("{:#?} is not an expression statement", stmt);
            panic!("{}", s);
        }
    }
}

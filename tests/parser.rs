use slope::ast::Expression;
use slope::ast::Location::{Infix, Prefix};
use slope::ast::{Operator, Parameter, Statement};
use slope::ast::Statement::{Assignment, ExpressionStatement, FunctionDeclaration};
use slope::lexer::LexerIterator;
use slope::number::Real;
use slope::parser::Parser;
use slope::token::Token;

fn r(x: f64) -> Real {
    Real::parse(&format!("{}", x)).unwrap()
}

fn parse_text(text: &str) -> Vec<Statement> {
    Parser::new(LexerIterator::new(text)).parse_program().unwrap()
}

fn parse_fails(text: &str) -> bool {
    Parser::new(LexerIterator::new(text)).parse_program().is_err()
}

#[test]
#[should_panic]
fn test_missing_expression() {
    let text = "let value =;";
    let parser = Parser::new(LexerIterator::new(text));
    parser.parse_program().unwrap();
}

#[test]
fn bad_parsing_is_rejected() {
    assert!(parse_fails("let value == 123;"));
    assert!(parse_fails("let value = 123"));
    assert!(parse_fails("v2 = 456;"));
    assert!(parse_fails("456"));
    assert!(parse_fails("fn foobar(a, b=2) = a * b;"));
    assert!(parse_fails("fn (a, b) = a * b;"));
    assert!(parse_fails("fn times(a, b);"));
    assert!(parse_fails("fn times(a, b) = ;"));
    assert!(parse_fails("(2 + 2;"));
    assert!(parse_fails("2 + 2);"));
    assert!(parse_fails("2 not 2;"));
    assert!(parse_fails("2 2;"));
    assert!(parse_fails("foo(2 2, 1 1);"));
    assert!(parse_fails("(2 - 2;);"));
    assert!(parse_fails("{ x if x < 0 };"));
    assert!(parse_fails("{ x else };"));
    assert!(parse_fails("{ x else; y else; };"));
    assert!(parse_fails("let x = 2 if true else 3;"));
    assert!(parse_fails("undefined else 2;"));
    assert!(parse_fails("|2 + 2;"));
}

#[test]
fn parameters_allow_a_trailing_comma() {
    assert_eq!(
        parse_text("fn f(a, ) = a;"),
        vec![FunctionDeclaration {
            identifier: "f".into(),
            parameters: vec![Parameter { name: "a".into() }],
            expression: Expression::Identifier("a".into())
        }]
    );
}

#[test]
fn rendered_expressions_parse_back() {
    let sources = [
        "{ 0 if x < 0; 0.5 if x == 0; 1 else; };",
        "{ 1, 2.5, 3 };",
        "{ };",
        "- 2 + 3 * 4 ^ 2 / 5 % 6;",
        "not true and false or x xor y;",
        "a +/- b -/+ c;",
        r"{ 1 } \/ { 2 } /\ { 3 } \ { 4 } /_\ { 5 };",
        "|-2 + |-4||;",
        "f(1, g(2), 3)! ? undefined;",
        "2.0 in { 2.0 };",
    ];
    for src in sources.iter() {
        let first = parse_text(src);
        let expression = match &first[0] {
            ExpressionStatement { expression } => expression,
            _ => panic!("expected an expression statement"),
        };
        let text = format!("{};", expression.to_text());
        let second = parse_text(&text);
        assert_eq!(first, second, "{}", text);
    }
}

#[test]
fn test_real_assignment() {
    assert_eq!(
        parse_text("let pi = 3.14;"),
        vec![Assignment {
            identifier: "pi".into(),
            expression: Expression::RealLiteral(r(3.14))
        }]
    );
}

#[test]
fn test_negative_integer_assignment() {
    assert_eq!(
        parse_text("let negOne = -1;"),
        vec![Assignment {
            identifier: "negOne".into(),
            expression: Expression::Combination {
                left: None,
                operator: Operator(Token::Minus, Prefix),
                right: Some(Box::new(Expression::IntegerLiteral(1)))
            }
        }]
    );
}

#[test]
fn test_integer_assignment() {
    assert_eq!(
        parse_text("let one = 1;"),
        vec![Assignment {
            identifier: "one".into(),
            expression: Expression::IntegerLiteral(1)
        }]
    );
}

#[test]
fn test_function_statement() {
    assert_eq!(
        parse_text("fn area(radius) = pi * radius ^ 2;"),
        vec![FunctionDeclaration {
            identifier: "area".into(),
            parameters: vec![Parameter {
                name: "radius".into()
            }],
            expression: Expression::Combination {
                left: Some(Box::new(Expression::Identifier("pi".into()))),
                operator: Operator(Token::Multiply, Infix),
                right: Some(Box::new(Expression::Combination {
                    left: Some(Box::new(Expression::Identifier("radius".into()))),
                    operator: Operator(Token::Exponent, Infix),
                    right: Some(Box::new(Expression::IntegerLiteral(2)))
                }))
            }
        }]
    );
}

#[test]
fn test_function_statement_with_params() {
    assert_eq!(
        parse_text("fn area(width, height) = width * height;"),
        vec![FunctionDeclaration {
            identifier: "area".into(),
            parameters: vec![
                Parameter {
                    name: "width".into()
                },
                Parameter {
                    name: "height".into()
                }
            ],
            expression: Expression::Combination {
                left: Some(Box::new(Expression::Identifier("width".into()))),
                operator: Operator(Token::Multiply, Infix),
                right: Some(Box::new(Expression::Identifier("height".into())))
            }
        }]
    );
}

#[test]
fn test_multiple_statements() {
    assert_eq!(
        parse_text("\
        let pi = 3.14;
        fn area(radius) = pi * radius ^ 2;
        "),
        vec![
            Assignment {
                identifier: "pi".into(),
                expression: Expression::RealLiteral(r(3.14))
            },
            FunctionDeclaration {
                identifier: "area".into(),
                parameters: vec![Parameter {
                    name: "radius".into()
                }],
                expression: Expression::Combination {
                    left: Some(Box::new(Expression::Identifier("pi".into()))),
                    operator: Operator(Token::Multiply, Infix),
                    right: Some(Box::new(Expression::Combination {
                        left: Some(Box::new(Expression::Identifier("radius".into()))),
                        operator: Operator(Token::Exponent, Infix),
                        right: Some(Box::new(Expression::IntegerLiteral(2)))
                    }))
                }
            }
        ]
    );
}

#[test]
fn test_expression_statement() {
    assert_eq!(
        parse_text("foobar;"),
        vec![ExpressionStatement {
            expression: Expression::Identifier("foobar".into())
        }]
    );
}

#[test]
fn test_integer_literal_expression() {
    assert_eq!(
        parse_text("5;"),
        vec![ExpressionStatement {
            expression: Expression::IntegerLiteral(5)
        }]
    );
}

#[test]
fn test_not_operator() {
    assert_eq!(
        parse_text("not true;"),
        vec![ExpressionStatement {
            expression: Expression::Combination {
                left: None,
                operator: Operator(Token::Not, Prefix),
                right: Some(Box::new(Expression::BooleanLiteral(true)))
            }
        }]
    );
}

#[test]
fn test_not_not_operator() {
    assert_eq!(
        parse_text("not not true;"),
        vec![ExpressionStatement {
            expression: Expression::Combination {
                left: None,
                operator: Operator(Token::Not, Prefix),
                right: Some(Box::new(Expression::Combination {
                    left: None,
                    operator: Operator(Token::Not, Prefix),
                    right: Some(Box::new(Expression::BooleanLiteral(true)))
                }))
            }
        }]
    );
}

#[test]
fn test_negative_number() {
    assert_eq!(
        parse_text("-5;"),
        vec![ExpressionStatement {
            expression: Expression::Combination {
                left: None,
                operator: Operator(Token::Minus, Prefix),
                right: Some(Box::new(Expression::IntegerLiteral(5)))
            }
        }]
    );
}

#[test]
fn test_negative_negative_number() {
    assert_eq!(
        parse_text("--5;"),
        vec![ExpressionStatement {
            expression: Expression::Combination {
                left: None,
                operator: Operator(Token::Minus, Prefix),
                right: Some(Box::new(Expression::Combination {
                    left: None,
                    operator: Operator(Token::Minus, Prefix),
                    right: Some(Box::new(Expression::IntegerLiteral(5)))
                }))
            }
        }]
    );
}

#[test]
fn composite_expression() {
    assert_eq!(
        parse_text("5 + 7 * 2;"),
        vec![ExpressionStatement {
            expression: Expression::Combination {
                operator: Operator(Token::Plus, Infix),
                left: Some(Box::new(Expression::IntegerLiteral(5))),
                right: Some(Box::new(Expression::Combination {
                    operator: Operator(Token::Multiply, Infix),
                    left: Some(Box::new(Expression::IntegerLiteral(7))),
                    right: Some(Box::new(Expression::IntegerLiteral(2)))
                }))
            }
        }]
    );
}

#[test]
fn composite_expression_2() {
    assert_eq!(
        parse_text("5 * 7 + 2 * 5;"),
        vec![ExpressionStatement {
            expression: Expression::Combination {
                operator: Operator(Token::Plus, Infix),
                left: Some(Box::new(Expression::Combination {
                    operator: Operator(Token::Multiply, Infix),
                    left: Some(Box::new(Expression::IntegerLiteral(5))),
                    right: Some(Box::new(Expression::IntegerLiteral(7)))
                })),
                right: Some(Box::new(Expression::Combination {
                    operator: Operator(Token::Multiply, Infix),
                    left: Some(Box::new(Expression::IntegerLiteral(2))),
                    right: Some(Box::new(Expression::IntegerLiteral(5)))
                })),
            }
        }]
    );
}

#[test]
fn test_expression_with_exponent() {
    assert_eq!(
        parse_text("- 7 ^ 2;"),
        vec![ExpressionStatement {
            expression: Expression::Combination {
                left: None,
                operator: Operator(Token::Minus, Prefix),
                right: Some(Box::new(Expression::Combination {
                    left: Some(Box::new(Expression::IntegerLiteral(7))),
                    operator: Operator(Token::Exponent, Infix),
                    right: Some(Box::new(Expression::IntegerLiteral(2)))
                }))
            }
        }]
    );
}

#[test]
fn test_expression_with_negative_exponent() {
    assert_eq!(
        parse_text("-2 ^ -2;"),
        vec![ExpressionStatement {
            expression: Expression::Combination {
                left: None,
                operator: Operator(Token::Minus, Prefix),
                right: Some(Box::new(Expression::Combination {
                    left: Some(Box::new(Expression::IntegerLiteral(2))),
                    operator: Operator(Token::Exponent, Infix),
                    right: Some(Box::new(Expression::Combination {
                        left: None,
                        operator: Operator(Token::Minus, Prefix),
                        right: Some(Box::new(Expression::IntegerLiteral(2)))
                    }))
                })),
            }
        }]
    );
}

#[test]
fn test_expression_statement_with_semicolon() {
    assert_eq!(
        parse_text("- 7 ^ 2;"),
        vec![ExpressionStatement {
            expression: Expression::Combination {
                left: None,
                operator: Operator(Token::Minus, Prefix),
                right: Some(Box::new(Expression::Combination {
                    left: Some(Box::new(Expression::IntegerLiteral(7))),
                    operator: Operator(Token::Exponent, Infix),
                    right: Some(Box::new(Expression::IntegerLiteral(2)))
                }))
            }
        }]
    );
}

#[test]
fn test_not_as_precedence() {
    assert_eq!(
        parse_text("not true as N;"),
        // (not true) as N
        vec![ExpressionStatement {
            expression: Expression::Combination {
                operator: Operator(Token::As, Infix),
                left: Some(Box::new(Expression::Combination {
                    left: None,
                    operator: Operator(Token::Not, Prefix),
                    right: Some(Box::new(Expression::BooleanLiteral(true)))
                })),
                right: Some(Box::new(Expression::Identifier("N".into())))
            }
        }]
    );
}

#[test]
fn test_negative_subtraction() {
    assert_eq!(
        parse_text("- 2 + 2;"),
        vec![ExpressionStatement {
            expression: Expression::Combination {
                left: Some(Box::new(Expression::Combination {
                    left: None,
                    operator: Operator(Token::Minus, Prefix),
                    right: Some(Box::new(Expression::IntegerLiteral(2)))
                })),
                operator: Operator(Token::Plus, Infix),
                right: Some(Box::new(Expression::IntegerLiteral(2)))
            }
        }]
    );
}

#[test]
fn test_grouped_expression() {
    assert_eq!(
        parse_text("(2 - 2) / (2 + 2);"),
        vec![ExpressionStatement {
            expression: Expression::Combination {
                left: Some(Box::new(Expression::Combination {
                    left: Some(Box::new(Expression::IntegerLiteral(2))),
                    operator: Operator(Token::Minus, Infix),
                    right: Some(Box::new(Expression::IntegerLiteral(2)))
                })),
                operator: Operator(Token::Division, Infix),
                right: Some(Box::new(Expression::Combination {
                    left: Some(Box::new(Expression::IntegerLiteral(2))),
                    operator: Operator(Token::Plus, Infix),
                    right: Some(Box::new(Expression::IntegerLiteral(2)))
                }))
            }
        }]
    );
}

#[test]
fn test_nested_grouped_expression() {
    assert_eq!(
        parse_text("((2 - 2) / (2 + 2)) ^ 2;"),
        vec![ExpressionStatement {
            expression: Expression::Combination {
                left: Some(Box::new(Expression::Combination {
                    left: Some(Box::new(Expression::Combination {
                        left: Some(Box::new(Expression::IntegerLiteral(2))),
                        operator: Operator(Token::Minus, Infix),
                        right: Some(Box::new(Expression::IntegerLiteral(2)))
                    })),
                    operator: Operator(Token::Division, Infix),
                    right: Some(Box::new(Expression::Combination {
                        left: Some(Box::new(Expression::IntegerLiteral(2))),
                        operator: Operator(Token::Plus, Infix),
                        right: Some(Box::new(Expression::IntegerLiteral(2)))
                    }))
                })),
                operator: Operator(Token::Exponent, Infix),
                right: Some(Box::new(Expression::IntegerLiteral(2)))
            }
        }]
    );
}

#[test]
fn test_call_expression() {
    assert_eq!(
        parse_text("foo(2 + 2);"),
        vec![ExpressionStatement {
            expression: Expression::Call {
                function: Box::new(Expression::Identifier("foo".into())),
                arguments: vec![Expression::Combination {
                    left: Some(Box::new(Expression::IntegerLiteral(2))),
                    operator: Operator(Token::Plus, Infix),
                    right: Some(Box::new(Expression::IntegerLiteral(2)))
                }]
            }
        }]
    );
}

#[test]
fn test_call_expression_with_trailing_comma() {
    assert_eq!(
        parse_text("foo(2 + 2, );"),
        vec![ExpressionStatement {
            expression: Expression::Call {
                function: Box::new(Expression::Identifier("foo".into())),
                arguments: vec![Expression::Combination {
                    left: Some(Box::new(Expression::IntegerLiteral(2))),
                    operator: Operator(Token::Plus, Infix),
                    right: Some(Box::new(Expression::IntegerLiteral(2)))
                }]
            }
        }]
    );
}

#[test]
fn test_empty_call_expression() {
    assert_eq!(
        parse_text("foo();"),
        vec![ExpressionStatement {
            expression: Expression::Call {
                function: Box::new(Expression::Identifier("foo".into())),
                arguments: vec![]
            }
        }]
    );
}

#[test]
fn test_call_expression_with_multiple_params() {
    assert_eq!(
        parse_text("foo(2, 2);"),
        vec![ExpressionStatement {
            expression: Expression::Call {
                function: Box::new(Expression::Identifier("foo".into())),
                arguments: vec![
                    Expression::IntegerLiteral(2),
                    Expression::IntegerLiteral(2)
                ]
            }
        }]
    );
}

#[test]
fn test_call_expression_in_composite_expression() {
    assert_eq!(
        parse_text("foo(2, 2) ? 42;"),
        vec![ExpressionStatement {
            expression: Expression::Combination {
                left: Some(Box::new(Expression::Call {
                    function: Box::new(Expression::Identifier("foo".into())),
                    arguments: vec![
                        Expression::IntegerLiteral(2),
                        Expression::IntegerLiteral(2)
                    ]
                })),
                operator: Operator(Token::Question, Infix),
                right: Some(Box::new(Expression::IntegerLiteral(42)))
            }
        }]
    );
}

#[test]
fn test_call_expression_in_prefix_expression() {
    assert_eq!(
        parse_text("- foo(2, 2);"),
        vec![ExpressionStatement {
            expression: Expression::Combination {
                left: None,
                operator: Operator(Token::Minus, Prefix),
                right: Some(Box::new(Expression::Call {
                    function: Box::new(Expression::Identifier("foo".into())),
                    arguments: vec![
                        Expression::IntegerLiteral(2),
                        Expression::IntegerLiteral(2)
                    ]
                })),
            }
        }]
    );
}

#[test]
fn test_piecewise_block_expression() {
    assert_eq!(
        parse_text("
        {
            0 if x < 0;
            0.5 if x == 0;
            1 else;
        };
        "),
        vec![ExpressionStatement {
            expression: Expression::PiecewiseBlock(
                vec![
                    (Expression::IntegerLiteral(0), Expression::Combination {
                        left: Some(Box::new(Expression::Identifier("x".into()))),
                        operator: Operator(Token::LessThan, Infix),
                        right: Some(Box::new(Expression::IntegerLiteral(0)))
                    }),
                    (Expression::RealLiteral(r(0.5)), Expression::Combination {
                        left: Some(Box::new(Expression::Identifier("x".into()))),
                        operator: Operator(Token::Equals, Infix),
                        right: Some(Box::new(Expression::IntegerLiteral(0)))
                    }),
                    (Expression::IntegerLiteral(1), Expression::BooleanLiteral(true)),
                ]
            )
        }]
    );
}

#[test]
fn test_piecewise_block_in_assignment_statement() {
    assert_eq!(
        parse_text("\
        let x = 2;
        let heavisideX = {
            0 if x < 0;
            0.5 if x == 0;
            1 else;
        };
        "),
        vec![
            Assignment {
                identifier: "x".into(),
                expression: Expression::IntegerLiteral(2)
            },
            Assignment {
                identifier: "heavisideX".into(),
                expression: Expression::PiecewiseBlock(
                    vec![
                        (Expression::IntegerLiteral(0), Expression::Combination {
                            left: Some(Box::new(Expression::Identifier("x".into()))),
                            operator: Operator(Token::LessThan, Infix),
                            right: Some(Box::new(Expression::IntegerLiteral(0)))
                        }),
                        (Expression::RealLiteral(r(0.5)), Expression::Combination {
                            left: Some(Box::new(Expression::Identifier("x".into()))),
                            operator: Operator(Token::Equals, Infix),
                            right: Some(Box::new(Expression::IntegerLiteral(0)))
                        }),
                        (Expression::IntegerLiteral(1), Expression::BooleanLiteral(true)),
                    ]
                )
            }
        ]
    );
}

#[test]
fn test_absolute_value() {
    assert_eq!(
        parse_text("|-2 + -4|;"),
        vec![
            ExpressionStatement {
                expression: Expression::AbsoluteValue(Box::new(Expression::Combination {
                    left: Some(Box::new(Expression::Combination {
                            left: None,
                            operator: Operator(Token::Minus, Prefix),
                            right: Some(Box::new(Expression::IntegerLiteral(2)))
                    })),
                    operator: Operator(Token::Plus, Infix),
                    right: Some(Box::new(Expression::Combination {
                        left: None,
                        operator: Operator(Token::Minus, Prefix),
                        right: Some(Box::new(Expression::IntegerLiteral(4)))
                    }))
                }))
            }
        ]
    );
}

#[test]
fn mod_test_nested_abs_val() {
    assert_eq!(
        parse_text("|-2 + |-4||;"),
        vec![
            ExpressionStatement {
                expression: Expression::AbsoluteValue(Box::new(Expression::Combination {
                    left: Some(Box::new(Expression::Combination {
                            left: None,
                            operator: Operator(Token::Minus, Prefix),
                            right: Some(Box::new(Expression::IntegerLiteral(2)))
                    })),
                    operator: Operator(Token::Plus, Infix),
                    right: Some(Box::new(Expression::AbsoluteValue(Box::new(
                        Expression::Combination {
                            left: None,
                            operator: Operator(Token::Minus, Prefix),
                            right: Some(Box::new(Expression::IntegerLiteral(4)))
                        }))
                    ))
                }))
            }
        ]
    );
}

#[test]
fn test_set_literal_expression() {
    assert_eq!(
        parse_text("{ 1, 2, 3 };"),
        vec![
            ExpressionStatement {
                expression: Expression::SetLiteral(vec![
                    Expression::IntegerLiteral(1),
                    Expression::IntegerLiteral(2),
                    Expression::IntegerLiteral(3),
                ])
            }
        ]
    );
}

#[test]
fn test_set_literal_expression_with_trailing_comma() {
    assert_eq!(
        parse_text("{ 1, 2, 3, };"),
        vec![
            ExpressionStatement {
                expression: Expression::SetLiteral(vec![
                    Expression::IntegerLiteral(1),
                    Expression::IntegerLiteral(2),
                    Expression::IntegerLiteral(3),
                ])
            }
        ]
    );
}

#[test]
fn test_empty_set_literal() {
    assert_eq!(
        parse_text("{ };"),
        vec![
            ExpressionStatement {
                expression: Expression::SetLiteral(vec![])
            }
        ]
    );
}

#[test]
fn test_one_element_set_literal() {
    assert_eq!(
        parse_text("{ 1 };"),
        vec![
            ExpressionStatement {
                expression: Expression::SetLiteral(vec![
                    Expression::IntegerLiteral(1)
                ])
            }
        ]
    );
}

#[test]
fn test_set_literal_with_reals() {
    assert_eq!(
        parse_text("{ 1.0, 2.0, 3.0 };"),
        vec![
            ExpressionStatement {
                expression: Expression::SetLiteral(vec![
                    Expression::RealLiteral(r(1.0)),
                    Expression::RealLiteral(r(2.0)),
                    Expression::RealLiteral(r(3.0)),
                ])
            }
        ]
    );
}

#[test]
fn mod_test_set_union() {
    assert_eq!(
        parse_text(r"{ 1.0, 2.0 } \/ { 3.0, 4.0 };"),
        vec![
            ExpressionStatement {
                expression: Expression::Combination {
                    left: Some(Box::new(Expression::SetLiteral(vec![
                        Expression::RealLiteral(r(1.0)),
                        Expression::RealLiteral(r(2.0)),
                    ]))),
                    operator: Operator(Token::Union, Infix),
                    right: Some(Box::new(Expression::SetLiteral(vec![
                        Expression::RealLiteral(r(3.0)),
                        Expression::RealLiteral(r(4.0)),
                    ]))),
                }
            }
        ]
    );
}

#[test]
fn mod_test_set_difference() {
    assert_eq!(
        parse_text(r"{ 1.0, 2.0 } \ { 2.0, 3.0 };"),
        vec![
            ExpressionStatement {
                expression: Expression::Combination {
                    left: Some(Box::new(Expression::SetLiteral(vec![
                        Expression::RealLiteral(r(1.0)),
                        Expression::RealLiteral(r(2.0)),
                    ]))),
                    operator: Operator(Token::SetDifference, Infix),
                    right: Some(Box::new(Expression::SetLiteral(vec![
                        Expression::RealLiteral(r(2.0)),
                        Expression::RealLiteral(r(3.0)),
                    ]))),
                }
            }
        ]
    );
}

#[test]
fn mod_test_set_symmetric_difference() {
    assert_eq!(
        parse_text(r"{ 1.0, 2.0 } /_\ { 2.0, 3.0 };"),
        vec![
            ExpressionStatement {
                expression: Expression::Combination {
                    left: Some(Box::new(Expression::SetLiteral(vec![
                        Expression::RealLiteral(r(1.0)),
                        Expression::RealLiteral(r(2.0)),
                    ]))),
                    operator: Operator(Token::SymmetricDifference, Infix),
                    right: Some(Box::new(Expression::SetLiteral(vec![
                        Expression::RealLiteral(r(2.0)),
                        Expression::RealLiteral(r(3.0)),
                    ]))),
                }
            }
        ]
    );
}

#[test]
fn mod_test_set_intersection() {
    assert_eq!(
        parse_text(r"{ 1.0, 2.0 } /\ { 3.0, 4.0 };"),
        vec![
            ExpressionStatement {
                expression: Expression::Combination {
                    left: Some(Box::new(Expression::SetLiteral(vec![
                        Expression::RealLiteral(r(1.0)),
                        Expression::RealLiteral(r(2.0)),
                    ]))),
                    operator: Operator(Token::Intersection, Infix),
                    right: Some(Box::new(Expression::SetLiteral(vec![
                        Expression::RealLiteral(r(3.0)),
                        Expression::RealLiteral(r(4.0)),
                    ]))),
                }
            }
        ]
    );
}

#[test]
fn mod_test_set_subset() {
    assert_eq!(
        parse_text(r"{ 1.0, 2.0 } < { 3.0, 4.0 };"),
        vec![
            ExpressionStatement {
                expression: Expression::Combination {
                    left: Some(Box::new(Expression::SetLiteral(vec![
                        Expression::RealLiteral(r(1.0)),
                        Expression::RealLiteral(r(2.0)),
                    ]))),
                    operator: Operator(Token::LessThan, Infix),
                    right: Some(Box::new(Expression::SetLiteral(vec![
                        Expression::RealLiteral(r(3.0)),
                        Expression::RealLiteral(r(4.0)),
                    ]))),
                }
            }
        ]
    );
}

#[test]
fn mod_test_set_proper_subset() {
    assert_eq!(
        parse_text(r"{ 1.0, 2.0 } <= { 3.0, 4.0 };"),
        vec![
            ExpressionStatement {
                expression: Expression::Combination {
                    left: Some(Box::new(Expression::SetLiteral(vec![
                        Expression::RealLiteral(r(1.0)),
                        Expression::RealLiteral(r(2.0)),
                    ]))),
                    operator: Operator(Token::LessThanEquals, Infix),
                    right: Some(Box::new(Expression::SetLiteral(vec![
                        Expression::RealLiteral(r(3.0)),
                        Expression::RealLiteral(r(4.0)),
                    ]))),
                }
            }
        ]
    );
}


#[test]
fn subtraction_is_left_associative() {
    assert_eq!(
        parse_text("1 - 2 - 3;"),
        vec![ExpressionStatement {
            expression: Expression::Combination {
                left: Some(Box::new(Expression::Combination {
                    left: Some(Box::new(Expression::IntegerLiteral(1))),
                    operator: Operator(Token::Minus, Infix),
                    right: Some(Box::new(Expression::IntegerLiteral(2)))
                })),
                operator: Operator(Token::Minus, Infix),
                right: Some(Box::new(Expression::IntegerLiteral(3)))
            }
        }]
    );
}

#[test]
fn a_malformed_statement_fails_the_program() {
    assert!(parse_fails("let a = 1; 2 2; let b = 3;"));
}

#[test]
fn grouping_and_whole_decimals_survive_rendering() {
    for src in ["(1 + 2) * 3;", "1.0;", "f();", "{ x else; };"].iter() {
        let first = parse_text(src);
        let expression = match &first[0] {
            ExpressionStatement { expression } => expression,
            _ => panic!("expected an expression statement"),
        };
        let text = format!("{};", expression.to_text());
        assert_eq!(first, parse_text(&text), "{}", text);
    }
}

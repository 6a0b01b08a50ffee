use leoscript::parser::Parser;
use leoscript::imports::expand_imports;
use leoscript::syntax::{CompilerErrorType, ParserErrorType, Syntax, TokenPosition};
use leoscript::token::Token;
use leoscript::table::Table;

fn if_ok(source: &str, expected: Syntax) {
    let m = match Parser::new(source).parse_if() {
        Ok(m) => m,
        Err(e) => {
            assert!(false, "Expected expression, got error: {:?}", e);
            return;
        }
    };
    assert_eq!(m, expected);
}

fn match_ok(source: &str, expected: Syntax) {
    let mut p = Parser::new(source);
    let m = match p.parse_match() {
        Ok(m) => m,
        Err(e) => {
            assert!(false, "Expected expression, got error: {:?}", e);
            return;
        }
    };
    assert_eq!(m, expected);
}

#[test]
fn test_single_if() {
    if_ok(
        r#"if count < 99 then
                a = 1
            end"#,
        Syntax::IfChain {
            position: TokenPosition { line: 1, column: 1 },
            arms: vec![Syntax::If {
                position: TokenPosition { line: 1, column: 1 },
                condition: Box::new(Syntax::Lt {
                    expr1: Box::new(Syntax::Identifier {
                        position: TokenPosition { line: 1, column: 4 },
                        name: String::from("count"),
                    }),
                    expr2: Box::new(Syntax::Integer(99)),
                }),
                body: vec![
                    Syntax::Assign {
                        position: TokenPosition { line: 1, column: 19 },
                        target: Box::new(Syntax::Identifier {
                            position: TokenPosition { line: 2, column: 17 },
                            name: String::from("a"),
                        }),
                        value: Box::new(Syntax::Integer(1)),
                    }
                ],
            }],
        }
    );
}

#[test]
fn test_if_else() {
    if_ok(r#"
            if count > 0 then
                a = 1
            else
                a = 2
            end"#,
        Syntax::IfChain {
            position: TokenPosition { line: 2, column: 13 },
            arms: vec![
                Syntax::If {
                    position: TokenPosition { line: 2, column: 13 },
                    condition: Box::new(Syntax::Gt {
                        expr1: Box::new(Syntax::Identifier {
                            position: TokenPosition { line: 2, column: 16 },
                            name: String::from("count"),
                        }),
                        expr2: Box::new(Syntax::Integer(0)),
                    }),
                    body: vec![
                        Syntax::Assign {
                            position: TokenPosition { line: 2, column: 30 },
                            target: Box::new(Syntax::Identifier {
                                position: TokenPosition { line: 3, column: 17 },
                                name: String::from("a"),
                            }),
                            value: Box::new(Syntax::Integer(1)),
                        }
                    ],
                },
                Syntax::Else {
                    position: TokenPosition { line: 4, column: 13 },
                    body: vec![
                        Syntax::Assign {
                            position: TokenPosition { line: 4, column: 17 },
                            target: Box::new(Syntax::Identifier {
                                position: TokenPosition { line: 5, column: 17 },
                                name: String::from("a"),
                            }),
                            value: Box::new(Syntax::Integer(2)),
                        }
                    ],
                }
            ]
        }
    );
}

#[test]
fn test_if_else_if() {
    if_ok(r#"
            if count > 0 then
                a = 1
            else if count < 99 then
                a = 2
            end"#,
        Syntax::IfChain {
            position: TokenPosition { line: 2, column: 13 },
            arms: vec![
                Syntax::If {
                    position: TokenPosition { line: 2, column: 13 },
                    condition: Box::new(Syntax::Gt {
                        expr1: Box::new(Syntax::Identifier {
                            position: TokenPosition { line: 2, column: 16 },
                            name: String::from("count"),
                        }),
                        expr2: Box::new(Syntax::Integer(0)),
                    }),
                    body: vec![
                        Syntax::Assign {
                            position: TokenPosition { line: 2, column: 30 },
                            target: Box::new(Syntax::Identifier {
                                position: TokenPosition { line: 3, column: 17 },
                                name: String::from("a"),
                            }),
                            value: Box::new(Syntax::Integer(1)),
                        }
                    ],
                },
                Syntax::If {
                    position: TokenPosition { line: 4, column: 18 },
                    condition: Box::new(Syntax::Lt {
                        expr1: Box::new(Syntax::Identifier {
                            position: TokenPosition { line: 4, column: 21 },
                            name: String::from("count"),
                        }),
                        expr2: Box::new(Syntax::Integer(99)),
                    }),
                    body: vec![
                        Syntax::Assign {
                            position: TokenPosition { line: 4, column: 36 },
                            target: Box::new(Syntax::Identifier {
                                position: TokenPosition { line: 5, column: 17 },
                                name: String::from("a"),
                            }),
                            value: Box::new(Syntax::Integer(2)),
                        }
                    ],
                }
            ]
        }
    );
}

#[test]
fn test_if_else_if_else() {
    if_ok(r#"
            if count > 0 then
                a = 1
            else if count < 99 then
                a = 2
            else
                a = 3
            end"#,
        Syntax::IfChain {
            position: TokenPosition { line: 2, column: 13 },
            arms: vec![
                Syntax::If {
                    position: TokenPosition { line: 2, column: 13 },
                    condition: Box::new(Syntax::Gt {
                        expr1: Box::new(Syntax::Identifier {
                            position: TokenPosition { line: 2, column: 16 },
                            name: String::from("count"),
                        }),
                        expr2: Box::new(Syntax::Integer(0)),
                    }),
                    body: vec![
                        Syntax::Assign {
                            position: TokenPosition { line: 2, column: 30 },
                            target: Box::new(Syntax::Identifier {
                                position: TokenPosition { line: 3, column: 17 },
                                name: String::from("a"),
                            }),
                            value: Box::new(Syntax::Integer(1)),
                        }
                    ],
                },
                Syntax::If {
                    position: TokenPosition { line: 4, column: 18 },
                    condition: Box::new(Syntax::Lt {
                        expr1: Box::new(Syntax::Identifier {
                            position: TokenPosition { line: 4, column: 21 },
                            name: String::from("count"),
                        }),
                        expr2: Box::new(Syntax::Integer(99)),
                    }),
                    body: vec![
                        Syntax::Assign {
                            position: TokenPosition { line: 4, column: 36 },
                            target: Box::new(Syntax::Identifier {
                                position: TokenPosition { line: 5, column: 17 },
                                name: String::from("a"),
                            }),
                            value: Box::new(Syntax::Integer(2)),
                        }
                    ],
                },
                Syntax::Else {
                    position: TokenPosition { line: 6, column: 13 },
                    body: vec![
                        Syntax::Assign {
                            position: TokenPosition { line: 6, column: 17 },
                            target: Box::new(Syntax::Identifier {
                                position: TokenPosition { line: 7, column: 17 },
                                name: String::from("a"),
                            }),
                            value: Box::new(Syntax::Integer(3)),
                        }
                    ],
                }
            ]
        }
    );
}

#[test]
fn test_parse_match() {
    match_ok(r#"
            match count
                case 1 then
                    a = 1
                end
                case 2 then
                    a = 2
                end
                default then
                    a = 3
                end
            end"#,
        Syntax::Match {
            position: TokenPosition { line: 2, column: 13 },
            expr: Box::new(Syntax::Identifier {
                position: TokenPosition { line: 2, column: 19 },
                name: String::from("count"),
            }),
            arms: vec![
                Syntax::Case {
                    position: TokenPosition { line: 3, column: 17 },
                    condition: Box::new(Syntax::Integer(1)),
                    body: vec![
                        Syntax::Assign {
                            position: TokenPosition { line: 3, column: 28 },
                            target: Box::new(Syntax::Identifier {
                                position: TokenPosition { line: 4, column: 21 },
                                name: String::from("a"),
                            }),
                            value: Box::new(Syntax::Integer(1)),
                        }
                    ],
                },
                Syntax::Case {
                    position: TokenPosition { line: 6, column: 17 },
                    condition: Box::new(Syntax::Integer(2)),
                    body: vec![
                        Syntax::Assign {
                            position: TokenPosition { line: 6, column: 28 },
                            target: Box::new(Syntax::Identifier {
                                position: TokenPosition { line: 7, column: 21 },
                                name: String::from("a"),
                            }),
                            value: Box::new(Syntax::Integer(2)),
                        }
                    ],
                },
            ],
            default: Some(Box::new(Syntax::DefaultCase {
                position: TokenPosition { line: 9, column: 17 },
                body: vec![
                    Syntax::Assign {
                        position: TokenPosition { line: 9, column: 29 },
                        target: Box::new(Syntax::Identifier {
                            position: TokenPosition { line: 10, column: 21 },
                            name: String::from("a"),
                        }),
                        value: Box::new(Syntax::Integer(3)),
                    }
                ],
            })),
        }
    );
}

#[test]
fn test_function_with_args() {
    let source = r#"
            function main(a, b)
                var a = 1
            end
        "#;

    let mut p = Parser::new(source);

    let r = match p.parse_function() {
        Ok(r) => r,
        Err(e) => {
            assert!(false, "bad parse: {:?}", e);
            return;
        }
    };

    assert_eq!(r, Syntax::Function {
        position: TokenPosition { line: 2, column: 13 },
        function_name: Box::new(Syntax::Identifier {
            position: TokenPosition { line: 2, column: 22 },
            name: String::from("main"),
        }),
        is_static: false,
        parameters: vec![
            Syntax::Variable {
                position: TokenPosition { line: 2, column: 27 },
                name: Box::new(Syntax::Identifier {
                    position: TokenPosition { line: 2, column: 27 },
                    name: String::from("a"),
                }),
                value: None,
            },
            Syntax::Variable {
                position: TokenPosition { line: 2, column: 30 },
                name: Box::new(Syntax::Identifier {
                    position: TokenPosition { line: 2, column: 30 },
                    name: String::from("b"),
                }),
                value: None,
            },
        ],
        body: vec![
            Syntax::Variable {
                position: TokenPosition { line: 3, column: 17 },
                name: Box::new(Syntax::Identifier {
                    position: TokenPosition { line: 3, column: 21 },
                    name: String::from("a"),
                }),
                value: Some(Box::new(Syntax::Integer(1))),
            },
        ],
    }
    )
}

#[test]
fn test_parse_return_with_no_value() {
    let source = r#"return"#;

    let mut p = Parser::new(source);

    assert_eq!(p.parse_return(), Ok(Syntax::Return {
        position: TokenPosition {
            line: 1,
            column: 1,
        },
        expr: None,
    }))
}

#[test]
fn test_parse_return_with_value() {
    let source = r#"return true"#;

    let mut p = Parser::new(source);

    assert_eq!(p.parse_return(), Ok(Syntax::Return {
        position: TokenPosition {
            line: 1,
            column: 1,
        },
        expr: Some(Box::new(Syntax::Bool(true))),
    }))
}

#[test]
fn function_test_script() {
    let mut p = Parser::new(r#"
        function main(argv)
            var x = 1
        end"#);

    let r = match p.parse_function() {
        Ok(r) => r,
        Err(e) => {
            assert!(false, "bad parse: {:?}", e);
            return;
        }
    };

    assert_eq!(r, Syntax::Function {
        position: TokenPosition { line: 2, column: 9 },
        function_name: Box::new(Syntax::Identifier {
            position: TokenPosition { line: 2, column: 18 },
            name: String::from("main"),
        }),
        is_static: false,
        parameters: vec![
            Syntax::Variable {
                position: TokenPosition { line: 2, column: 23 },
                name: Box::new(Syntax::Identifier {
                    position: TokenPosition { line: 2, column: 23 },
                    name: String::from("argv"),
                }),
                value: None,
            },
        ],
        body: vec![
            Syntax::Variable {
                position: TokenPosition { line: 3, column: 13 },
                name: Box::new(Syntax::Identifier {
                    position: TokenPosition { line: 3, column: 17 },
                    name: String::from("x"),
                }),
                value: Some(Box::new(Syntax::Integer(1))),
            },
        ],
    })
}

#[test]
fn return_nothing() {
    let mut p = Parser::new(r#"
        function main()
            return
        end"#);

    let r = match p.parse_function() {
        Ok(r) => r,
        Err(e) => {
            assert!(false, "bad parse: {:?}", e);
            return;
        }
    };

    assert_eq!(r, Syntax::Function {
        position: TokenPosition { line: 2, column: 9 },
        function_name: Box::new(Syntax::Identifier {
            position: TokenPosition { line: 2, column: 18 },
            name: String::from("main"),
        }),
        is_static: false,
        parameters: vec![],
        body: vec![
            Syntax::Return {
                position: TokenPosition { line: 3, column: 13 },
                expr: None,
            },
        ],
    })
}

#[test]
fn return_something() {
    let mut p = Parser::new(r#"
        function main()
            return true
        end"#);

    let r = match p.parse_function() {
        Ok(r) => r,
        Err(e) => {
            assert!(false, "bad parse: {:?}", e);
            return;
        }
    };

    assert_eq!(r, Syntax::Function {
        position: TokenPosition { line: 2, column: 9 },
        function_name: Box::new(Syntax::Identifier {
            position: TokenPosition { line: 2, column: 18 },
            name: String::from("main"),
        }),
        is_static: false,
        parameters: vec![],
        body: vec![
            Syntax::Return {
                position: TokenPosition { line: 3, column: 13 },
                expr: Some(Box::new(Syntax::Bool(true))),
            },
        ],
    })
}

#[test]
fn return_new_object() {
    let mut p = Parser::new(r#"
        function get_object()
            return Object()
        end"#);

    let r = match p.parse_function() {
        Ok(r) => r,
        Err(e) => {
            assert!(false, "bad parse: {:?}", e);
            return;
        }
    };

    assert_eq!(r, Syntax::Function {
        position: TokenPosition { line: 2, column: 9 },
        function_name: Box::new(Syntax::Identifier {
            position: TokenPosition { line: 2, column: 18 },
            name: String::from("get_object"),
        }),
        is_static: false,
        parameters: vec![],
        body: vec![
            Syntax::Return {
                position: TokenPosition { line: 3, column: 13 },
                expr: Some(Box::new(Syntax::Call {
                    position: TokenPosition { line: 3, column: 20 },
                    target: Box::new(Syntax::Identifier {
                        position: TokenPosition { line: 3, column: 20 },
                        name: String::from("Object"),
                    }),
                    args: vec![],
                })),
            },
        ],
    })
}

#[test]
fn test_function_call() {
    let source = r#"print("hello world")"#;

    let mut p = Parser::new(source);
    let result = p.parse_identifier_statement();

    assert_eq!(result, Ok(Syntax::Call {
        position: TokenPosition {
            line: 1,
            column: 1,
        },
        target: Box::new(Syntax::Identifier {
            position: TokenPosition {
                line: 1,
                column: 1,
            },
            name: "print".to_string(),
        }),
        args: vec![
            Syntax::String("hello world".to_string())
        ],
    }));
}

#[test]
fn test_assignment_single_identifier() {
    let source = "teacups = 2";

    let mut p = Parser::new(source);

    let result = p.parse_identifier_statement();

    assert_eq!(result, Ok(Syntax::Assign {
        position: TokenPosition {
            line: 1,
            column: 1,
        },
        target: Box::new(Syntax::Identifier {
            position: TokenPosition {
                line: 1,
                column: 1,
            },
            name: "teacups".to_string(),
        }),
        value: Box::new(Syntax::Integer(2)),
    }));
}

#[test]
fn test_while() {
    let mut p = Parser::new(r#"while count > 0 do end"#);
    let m = match p.parse_while_loop() {
        Ok(m) => m,
        Err(e) => {
            assert!(false, "Expected expression, got error: {:?}", e);
            return;
        }
    };

    assert_eq!(m, Syntax::WhileLoop {
        position: TokenPosition { line: 1, column: 1 },
        condition: Box::new(Syntax::Gt {
            expr1: Box::new(Syntax::Identifier {
                position: TokenPosition { line: 1, column: 7 },
                name: String::from("count"),
            }),
            expr2: Box::new(Syntax::Integer(0)),
        }),
        body: vec![],
    }
    );
}

#[test]
fn test_while_with_break() {
    let mut p = Parser::new(r#"while count > 0 do break end"#);
    let m = match p.parse_while_loop() {
        Ok(m) => m,
        Err(e) => {
            assert!(false, "Expected expression, got error: {:?}", e);
            return;
        }
    };

    assert_eq!(m, Syntax::WhileLoop {
        position: TokenPosition { line: 1, column: 1 },
        condition: Box::new(Syntax::Gt {
            expr1: Box::new(Syntax::Identifier {
                position: TokenPosition { line: 1, column: 7 },
                name: String::from("count"),
            }),
            expr2: Box::new(Syntax::Integer(0)),
        }),
        body: vec![
            Syntax::Break {
                position: TokenPosition { line: 1, column: 20 },
            }
        ],
    }
    );
}

#[test]
fn test_while_with_continue() {
    let mut p = Parser::new(r#"while count > 0 do continue end"#);
    let m = match p.parse_while_loop() {
        Ok(m) => m,
        Err(e) => {
            assert!(false, "Expected expression, got error: {:?}", e);
            return;
        }
    };

    assert_eq!(m, Syntax::WhileLoop {
        position: TokenPosition { line: 1, column: 1 },
        condition: Box::new(Syntax::Gt {
            expr1: Box::new(Syntax::Identifier {
                position: TokenPosition { line: 1, column: 7 },
                name: String::from("count"),
            }),
            expr2: Box::new(Syntax::Integer(0)),
        }),
        body: vec![
            Syntax::Continue {
                position: TokenPosition { line: 1, column: 20 },
            }
        ],
    }
    );
}

#[test]
fn test_for_in() {
    let mut p = Parser::new(r#"for book in books do end"#);
    let m = match p.parse_for_loop() {
        Ok(m) => m,
        Err(e) => {
            assert!(false, "Expected expression, got error: {:?}", e);
            return;
        }
    };

    assert_eq!(m, Syntax::ForEach {
        position: TokenPosition { line: 1, column: 1 },
        ident: Box::new(Syntax::Identifier {
            position: TokenPosition { line: 1, column: 5 },
            name: String::from("book"),
        }),
        collection: Box::new(Syntax::Identifier {
            position: TokenPosition { line: 1, column: 13 },
            name: String::from("books"),
        }),
        body: vec![],
    });
}

#[test]
fn test_for_to() {
    let mut p = Parser::new(r#"for x = 1 to 100 do end"#);
    let m = match p.parse_for_loop() {
        Ok(m) => m,
        Err(e) => {
            assert!(false, "Expected expression, got error: {:?}", e);
            return;
        }
    };

    assert_eq!(m, Syntax::ForEach {
        position: TokenPosition { line: 1, column: 1 },
        ident: Box::new(Syntax::Identifier {
            position: TokenPosition { line: 1, column: 5 },
            name: String::from("x"),
        }),
        collection: Box::new(Syntax::Range {
            start: Box::new(Syntax::Integer(1)),
            end: Box::new(Syntax::Integer(100)),
            step: None,
        }),
        body: vec![],
    });
}

#[test]
fn test_for_to_with_step() {
    let mut p = Parser::new(r#"for x = 1 to 100 step 2 do end"#);
    let m = match p.parse_for_loop() {
        Ok(m) => m,
        Err(e) => {
            assert!(false, "Expected expression, got error: {:?}", e);
            return;
        }
    };

    assert_eq!(m, Syntax::ForEach {
        position: TokenPosition { line: 1, column: 1 },
        ident: Box::new(Syntax::Identifier {
            position: TokenPosition { line: 1, column: 5 },
            name: String::from("x"),
        }),
        collection: Box::new(Syntax::Range {
            start: Box::new(Syntax::Integer(1)),
            end: Box::new(Syntax::Integer(100)),
            step: Some(Box::new(Syntax::Integer(2))),
        }),
        body: vec![],
    });
}

#[test]
fn toplevel_test_parse_enum() {
    let source = r#"
            enum Color
                Red
                Green
                Blue
            end
        "#;

    let mut p = Parser::new(source);

    let r = match p.parse_enum() {
        Ok(r) => r,
        Err(e) => {
            assert!(false, "bad parse: {:?}", e);
            return;
        }
    };

    assert_eq!(r, Syntax::Enum {
        position: TokenPosition { line: 2, column: 13 },
        name: Box::new(Syntax::Identifier {
            position: TokenPosition { line: 2, column: 18 },
            name: String::from("Color"),
        }),
        items: vec![
            Syntax::Identifier {
                position: TokenPosition { line: 3, column: 17 },
                name: String::from("Red"),
            },
            Syntax::Identifier {
                position: TokenPosition { line: 4, column: 17 },
                name: String::from("Green"),
            },
            Syntax::Identifier {
                position: TokenPosition { line: 5, column: 17 },
                name: String::from("Blue"),
            },
        ],
    });
}

#[test]
fn test_parse_class_attributes() {
    let source = r#"
            class Color
                attribute red
                attribute green
                attribute blue
            end
        "#;

    let mut p = Parser::new(source);

    let r = match p.parse_class() {
        Ok(r) => r,
        Err(e) => {
            assert!(false, "bad parse: {:?}", e);
            return;
        }
    };

    assert_eq!(r, Syntax::Class {
        position: TokenPosition { line: 2, column: 13 },
        class_name: Box::new(Syntax::Identifier {
            position: TokenPosition { line: 2, column: 19 },
            name: String::from("Color"),
        }),
        attributes: vec![
            Syntax::Attribute {
                position: TokenPosition { line: 3, column: 17 },
                name: Box::new(Syntax::Identifier {
                    position: TokenPosition { line: 3, column: 27 },
                    name: String::from("red"),
                }),
                value: None,
            },
            Syntax::Attribute {
                position: TokenPosition { line: 4, column: 17 },
                name: Box::new(Syntax::Identifier {
                    position: TokenPosition { line: 4, column: 27 },
                    name: String::from("green"),
                }),
                value: None,
            },
            Syntax::Attribute {
                position: TokenPosition { line: 5, column: 17 },
                name: Box::new(Syntax::Identifier {
                    position: TokenPosition { line: 5, column: 27 },
                    name: String::from("blue"),
                }),
                value: None,
            },
        ],
        constructor: None,
        methods: vec![],
    });
}

#[test]
fn test_class_constructor() {
    let source = r#"
            class Color
                constructor()
                    print("hello world")
                end
            end
        "#;

    let mut p = Parser::new(source);

    let r = match p.parse_class() {
        Ok(r) => r,
        Err(e) => {
            assert!(false, "bad parse: {:?}", e);
            return;
        }
    };

    assert_eq!(r, Syntax::Class {
        position: TokenPosition { line: 2, column: 13 },
        class_name: Box::new(Syntax::Identifier {
            position: TokenPosition { line: 2, column: 19 },
            name: String::from("Color"),
        }),
        attributes: vec![],
        constructor: Some(Box::new(Syntax::Constructor {
            position: TokenPosition { line: 3, column: 17 },
            input: vec![],
            body: vec![
                Syntax::Call {
                    position: TokenPosition { line: 4, column: 21 },
                    target: Box::new(Syntax::Identifier {
                        position: TokenPosition { line: 4, column: 21 },
                        name: String::from("print"),
                    }),
                    args: vec![
                        Syntax::String(String::from("hello world")),
                    ],
                },
            ],
        })),
        methods: vec![],
    });
}

#[test]
fn test_class_method() {
    let source = r#"
            class Color
                function print()
                    print("hello world")
                end
            end
        "#;

    let mut p = Parser::new(source);

    let r = match p.parse_class() {
        Ok(r) => r,
        Err(e) => {
            assert!(false, "bad parse: {:?}", e);
            return;
        }
    };

    assert_eq!(r, Syntax::Class {
        position: TokenPosition { line: 2, column: 13 },
        class_name: Box::new(Syntax::Identifier {
            position: TokenPosition { line: 2, column: 19 },
            name: String::from("Color"),
        }),
        attributes: vec![],
        constructor: None,
        methods: vec![
            Syntax::Function {
                position: TokenPosition { line: 3, column: 17 },
                function_name: Box::new(Syntax::Identifier {
                    position: TokenPosition { line: 3, column: 26 },
                    name: String::from("print"),
                }),
                is_static: false,
                parameters: vec![],
                body: vec![
                    Syntax::Call {
                        position: TokenPosition { line: 4, column: 21 },
                        target: Box::new(Syntax::Identifier {
                            position: TokenPosition { line: 4, column: 21 },
                            name: String::from("print"),
                        }),
                        args: vec![
                            Syntax::String(String::from("hello world")),
                        ],
                    },
                ],
            },
        ],
    });
}

#[test]
fn test_parse_variable_with_no_value() {
    let r = match Parser::new("var fruit").parse_variable() {
        Ok(r) => r,
        Err(e) => {
            assert!(false, "bad parse: {:?}", e);
            return;
        }
    };

    assert_eq!(r, Syntax::Variable {
        position: TokenPosition {
            line: 1,
            column: 1,
        },
        name: Box::new(Syntax::Identifier {
            position: TokenPosition {
                line: 1,
                column: 5,
            },
            name: "fruit".to_string(),
        }),
        value: None,
    });
}

#[test]
fn test_parse_variable_with_value() {
    let source = "var apples = 3";

    let r = match Parser::new(source).parse_variable() {
        Ok(r) => r,
        Err(e) => {
            assert!(false, "bad parse: {:?}", e);
            return;
        }
    };

    assert_eq!(r, Syntax::Variable {
        position: TokenPosition {
            line: 1,
            column: 1,
        },
        name: Box::new(Syntax::Identifier {
            position: TokenPosition {
                line: 1,
                column: 5,
            },
            name: "apples".to_string(),
        }),
        value: Some(Box::new(Syntax::Integer(3))),
    });
}

#[test]
fn test_imports() {
    let main_source = r#"
            import tests.scripts.super

            function main()
                var d = Graphics::Dimension(10, 20)
                return d.area()
            end
        "#;

    let p = Parser::parse(main_source);

    assert!(p.is_ok());

    // The imported file, as the host reads it from the disk.
    let mut files = Table::new();
    files.insert(String::from("tests/scripts/super.leo"), String::from(SUPER_SCRIPT));
    let tree = p.unwrap().syntax_tree;
    assert!(matches!(tree[0], Syntax::Import { .. }));
    let expanded = expand_imports(tree, &files, files.len()).unwrap();
    assert!(matches!(&expanded[0], Syntax::Module { .. }));
    assert!(matches!(&expanded[1], Syntax::Function { .. }));
    assert_eq!(expanded.len(), 2);
}

const SUPER_SCRIPT: &str = r#"
    module Graphics
        class Dimension
            attribute width
            attribute height

            constructor(w, h)
                self.width = w
                self.height = h
            end

            function area()
                return self.width * self.height
            end
        end
    end
"#;

#[test]
fn import_without_its_file_is_refused() {
    let files: Table<String> = Table::new();
    let tree = Parser::parse("import missing.file\nfunction main()\nend").unwrap().syntax_tree;
    match expand_imports(tree, &files, files.len()) {
        Err(e) => assert!(matches!(e.error, CompilerErrorType::InvalidImportPath(ref p) if p == "missing/file.leo")),
        Ok(_) => panic!("the file is not there"),
    }
}

#[test]
fn match_with_a_stray_token_is_refused() {
    let mut p = Parser::new("match count\ncase 1 then\na = 1\nend\nreturn 2\nend");
    match p.parse_match() {
        Err(e) => {
            assert_eq!(e.error, ParserErrorType::UnwantedToken(Token::Return));
            assert_eq!(e.position, TokenPosition { line: 5, column: 1 });
        }
        Ok(m) => panic!("expected an error, got {:?}", m),
    }
}

#[test]
fn script_with_a_statement_at_the_top_is_refused() {
    match Parser::parse("function main()\nend\nvar x = 1") {
        Err(e) => {
            assert_eq!(e.error, ParserErrorType::UnwantedToken(Token::Var));
            assert_eq!(e.position, TokenPosition { line: 3, column: 1 });
        }
        Ok(_) => panic!("a script holds no statements at its top"),
    }
}

#[test]
fn file_that_imports_itself_cannot_be_imported() {
    let mut files = Table::new();
    files.insert(String::from("a.leo"), String::from("import a\nfunction f()\nend"));
    let tree = Parser::parse("import a\nfunction main()\nend").unwrap().syntax_tree;
    match expand_imports(tree, &files, files.len()) {
        Err(e) => {
            assert!(matches!(e.error, CompilerErrorType::UnableToImportFile(ref p) if p == "a.leo"));
            assert_eq!(e.position, TokenPosition { line: 1, column: 1 });
        }
        Ok(_) => panic!("the import never ends"),
    }
}

#[test]
fn imported_file_that_does_not_parse_gives_its_error() {
    let mut files = Table::new();
    files.insert(String::from("b.leo"), String::from("var x = 1"));
    let tree = Parser::parse("import b\nfunction main()\nend").unwrap().syntax_tree;
    match expand_imports(tree, &files, files.len()) {
        Err(e) => {
            assert!(matches!(e.error, CompilerErrorType::ParseError(ParserErrorType::UnwantedToken(Token::Var))));
            assert_eq!(e.position, TokenPosition { line: 1, column: 1 });
        }
        Ok(_) => panic!("the imported file does not parse"),
    }
}

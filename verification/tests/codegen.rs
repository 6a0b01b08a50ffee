use leoscript::codegen::{Function, Variable};
use leoscript::instruction::Instruction;
use leoscript::syntax::{CompilerError, CompilerErrorType, Syntax, TokenPosition};
use leoscript::table::Table;

/// Generates the code of `token` with the locals a, b, c and d in slots 0 to 3.
fn expression_ok(token: Syntax, expected: Vec<Instruction>) {
    let position = Default::default();

    let mut variables = Table::new();
    variables.insert(String::from("a"), Variable { slot_index: 0, name: String::from("a") });
    variables.insert(String::from("b"), Variable { slot_index: 1, name: String::from("b") });
    variables.insert(String::from("c"), Variable { slot_index: 2, name: String::from("c") });
    variables.insert(String::from("d"), Variable { slot_index: 3, name: String::from("d") });

    let mut generator = Function::default();
    generator.variables = variables;
    generator.generate_expression(position, Box::from(token)).unwrap();

    assert_eq!(generator.instructions, expected);
}

/// Generates an assignment with the locals a, b, c and rooms in slots 0 to 3.
fn assignment_ok(target: Box<Syntax>, value: Box<Syntax>, expected: Vec<Instruction>) {
    let mut g = Function::default();

    g.variables.insert(String::from("a"), Variable { slot_index: 0, name: String::from("a") });
    g.variables.insert(String::from("b"), Variable { slot_index: 1, name: String::from("b") });
    g.variables.insert(String::from("c"), Variable { slot_index: 2, name: String::from("c") });
    g.variables.insert(String::from("rooms"), Variable { slot_index: 3, name: String::from("rooms") });

    let _ = g.generate_assignment(TokenPosition::default(), target, value);
    assert_eq!(g.instructions, expected);
}

#[test]
fn test_error_when_assign_to_undeclared_var() {
    let input = vec![
        Syntax::Assign {
            position: TokenPosition { line: 1, column: 1 },
            target: Box::new(Syntax::Identifier {
                position: TokenPosition { line: 1, column: 1 },
                name: String::from("a"),
            }),
            value: Box::new(Syntax::Integer(1)),
        }
    ];

    let f = Function::new(TokenPosition::default(), String::from("test"), vec![], input);

    assert!(f.is_err());
    assert_eq!(f.err().unwrap(), CompilerError {
        error: CompilerErrorType::VariableNotDeclared(String::from("a")),
        position: TokenPosition { line: 1, column: 1 },
    });
}

#[test]
fn match_with_default() {
    let syntax = Syntax::Match {
        position: Default::default(),
        expr: Box::new(Syntax::Integer(1)),
        arms: vec![
            Syntax::Case {
                position: Default::default(),
                condition: Box::new(Syntax::Integer(1)),
                body: vec![Syntax::Print {
                    position: Default::default(),
                    expr: Box::new(Syntax::String("one".to_string())),
                }],
            },
            Syntax::Case {
                position: Default::default(),
                condition: Box::new(Syntax::Integer(2)),
                body: vec![Syntax::Print {
                    position: Default::default(),
                    expr: Box::new(Syntax::String("two".to_string())),
                }],
            },
        ],
        default: Some(Box::from(Syntax::DefaultCase {
            position: Default::default(),
            body: vec![Syntax::Print {
                position: Default::default(),
                expr: Box::new(Syntax::String("default".to_string())),
            }],
        })),
    };

    let mut generator = Function::default();
    generator.generate_match(Box::from(syntax)).unwrap();

    assert_eq!(generator.instructions, vec![
        Instruction::PushInteger(1),
        Instruction::PushInteger(1),
        Instruction::Equal,
        Instruction::JumpForwardIfFalse(4),
        Instruction::PushString("one".to_string()),
        Instruction::Print,
        Instruction::JumpForward(10),
        Instruction::PushInteger(1),
        Instruction::PushInteger(2),
        Instruction::Equal,
        Instruction::JumpForwardIfFalse(4),
        Instruction::PushString("two".to_string()),
        Instruction::Print,
        Instruction::JumpForward(3),
        Instruction::PushString("default".to_string()),
        Instruction::Print,
    ]);
}

#[test]
fn single_if() {
    let syntax = Syntax::IfChain {
        position: Default::default(),
        arms: vec![
            Syntax::If {
                position: Default::default(),
                condition: Box::new(Syntax::Integer(1)),
                body: vec![Syntax::Print {
                    position: Default::default(),
                    expr: Box::new(Syntax::String("hello".to_string())),
                }],
            }
        ],

    };

    let mut generator = Function::default();
    generator.generate_if_else(Box::from(syntax)).unwrap();

    assert_eq!(generator.instructions, vec![
        Instruction::PushInteger(1),
        Instruction::JumpForwardIfFalse(4),
        Instruction::PushString("hello".to_string()),
        Instruction::Print,
        Instruction::JumpForward(1),
    ]);
}

#[test]
fn if_else() {
    let syntax = Syntax::IfChain {
        position: Default::default(),
        arms: vec![
            Syntax::If {
                position: Default::default(),
                condition: Box::new(Syntax::Integer(1)),
                body: vec![Syntax::Print {
                    position: Default::default(),
                    expr: Box::new(Syntax::String("hello".to_string())),
                }],
            },
            Syntax::Else {
                position: Default::default(),
                body: vec![Syntax::Print {
                    position: Default::default(),
                    expr: Box::new(Syntax::String("world".to_string())),
                }],
            },
        ],

    };

    let mut generator = Function::default();
    generator.generate_if_else(Box::from(syntax)).unwrap();

    assert_eq!(generator.instructions, vec![
        Instruction::PushInteger(1),
        Instruction::JumpForwardIfFalse(4),
        Instruction::PushString("hello".to_string()),
        Instruction::Print,
        Instruction::JumpForward(3),
        Instruction::PushString("world".to_string()),
        Instruction::Print,
    ]);
}

// basic expressions

#[test]
fn expression_null() {
    expression_ok(
        Syntax::Null,
        vec![Instruction::PushNull]
    );
}

#[test]
fn expression_integer() {
    expression_ok(
        Syntax::Integer(1),
        vec![Instruction::PushInteger(1)]
    );
}

#[test]
fn expression_float() {
    expression_ok(
        Syntax::Float(String::from("1.0")),
        vec![Instruction::PushFloat(String::from("1.0"))]
    );
}

#[test]
fn expression_bool() {
    expression_ok(
        Syntax::Bool(true),
        vec![Instruction::PushBool(true)]
    );
}

#[test]
fn expression_string() {
    expression_ok(
        Syntax::String(String::from("hello")),
        vec![Instruction::PushString(String::from("hello"))]
    );
}

// math expressions

#[test]
fn add_numbers() {
    expression_ok(
        Syntax::Add {
            expr1: Box::new(Syntax::Integer(1)),
            expr2: Box::new(Syntax::Integer(2)),
        },
        vec![
            Instruction::PushInteger(1),
            Instruction::PushInteger(2),
            Instruction::Add,
        ]
    );
}

#[test]
fn subtract_numbers() {
    expression_ok(
        Syntax::Sub {
            expr1: Box::new(Syntax::Integer(1)),
            expr2: Box::new(Syntax::Integer(2)),
        },
        vec![
            Instruction::PushInteger(1),
            Instruction::PushInteger(2),
            Instruction::Sub,
        ]
    );
}

#[test]
fn multiply_numbers() {
    expression_ok(
        Syntax::Mul {
            expr1: Box::new(Syntax::Integer(1)),
            expr2: Box::new(Syntax::Integer(2)),
        },
        vec![
            Instruction::PushInteger(1),
            Instruction::PushInteger(2),
            Instruction::Multiply,
        ]
    );
}

#[test]
fn divide_numbers() {
    expression_ok(
        Syntax::Div {
            expr1: Box::new(Syntax::Integer(1)),
            expr2: Box::new(Syntax::Integer(2)),
        },
        vec![
            Instruction::PushInteger(1),
            Instruction::PushInteger(2),
            Instruction::Divide,
        ]
    );
}

#[test]
fn power_numbers() {
    expression_ok(
        Syntax::Pow {
            expr1: Box::new(Syntax::Integer(1)),
            expr2: Box::new(Syntax::Integer(2)),
        },
        vec![
            Instruction::PushInteger(1),
            Instruction::PushInteger(2),
            Instruction::Pow,
        ]
    );
}

// boolean expressions

#[test]
fn less_than_numbers() {
    expression_ok(
        Syntax::Lt {
            expr1: Box::new(Syntax::Integer(1)),
            expr2: Box::new(Syntax::Integer(2)),
        },
        vec![
            Instruction::PushInteger(1),
            Instruction::PushInteger(2),
            Instruction::LessThan,
        ]
    );
}

#[test]
fn less_than_or_equal_numbers() {
    expression_ok(
        Syntax::Le {
            expr1: Box::new(Syntax::Integer(1)),
            expr2: Box::new(Syntax::Integer(2)),
        },
        vec![
            Instruction::PushInteger(1),
            Instruction::PushInteger(2),
            Instruction::LessThanOrEqual,
        ]
    );
}

#[test]
fn greater_than_numbers() {
    expression_ok(
        Syntax::Gt {
            expr1: Box::new(Syntax::Integer(1)),
            expr2: Box::new(Syntax::Integer(2)),
        },
        vec![
            Instruction::PushInteger(1),
            Instruction::PushInteger(2),
            Instruction::GreaterThan,
        ]
    );
}

#[test]
fn greater_than_or_equal_numbers() {
    expression_ok(
        Syntax::Ge {
            expr1: Box::new(Syntax::Integer(1)),
            expr2: Box::new(Syntax::Integer(2)),
        },
        vec![
            Instruction::PushInteger(1),
            Instruction::PushInteger(2),
            Instruction::GreaterThanOrEqual,
        ]
    );
}

#[test]
fn equal_numbers() {
    expression_ok(
        Syntax::Eq {
            expr1: Box::new(Syntax::Integer(1)),
            expr2: Box::new(Syntax::Integer(2)),
        },
        vec![
            Instruction::PushInteger(1),
            Instruction::PushInteger(2),
            Instruction::Equal,
        ]
    );
}

#[test]
fn long_math() {
    // 1 + 2 * 3
    expression_ok(
        Syntax::Add {
            expr1: Box::new(Syntax::Integer(1)),
            expr2: Box::new(Syntax::Mul {
                expr1: Box::new(Syntax::Integer(2)),
                expr2: Box::new(Syntax::Integer(3)),
            }),
        },
        vec![
            Instruction::PushInteger(1),
            Instruction::PushInteger(2),
            Instruction::PushInteger(3),
            Instruction::Multiply,
            Instruction::Add,
        ]
    );
}

// call expressions

#[test]
fn call_function_with_arguments() {
    // myfunc(1, 2)
    expression_ok(
        Syntax::Call {
            position: Default::default(),
            target: Box::new(Syntax::Identifier {
                name: String::from("myfunc"),
                position: Default::default()
            }),
            args: vec![Syntax::Integer(1), Syntax::Integer(2)],
        },
        vec![
            Instruction::LoadGlobal(String::from("myfunc")),
            Instruction::PushInteger(1),
            Instruction::PushInteger(2),
            Instruction::Call(2),
        ]
    );
}

#[test]
fn call_function_with_expression() {
    // myfunc(1 + 2)
    expression_ok(
        Syntax::Call {
            position: Default::default(),
            target: Box::new(Syntax::Identifier {
                name: String::from("myfunc"),
                position: Default::default()
            }),
            args: vec![Syntax::Add {
                expr1: Box::new(Syntax::Integer(1)),
                expr2: Box::new(Syntax::Integer(2)),
            }],
        },
        vec![
            Instruction::LoadGlobal(String::from("myfunc")),
            Instruction::PushInteger(1),
            Instruction::PushInteger(2),
            Instruction::Add,
            Instruction::Call(1),
        ]
    );
}

#[test]
fn call_function_on_object() {
    // myservice.myfunc(1, 2)
    expression_ok(
        Syntax::Call {
            position: Default::default(),
            target: Box::new(Syntax::MemberAccess {
                position: Default::default(),
                target: Box::new(Syntax::Identifier {
                    name: String::from("myservice"),
                    position: Default::default()
                }),
                index: Box::new(Syntax::Identifier {
                    name: String::from("myfunc"),
                    position: Default::default()
                }),
            }),
            args: vec![Syntax::Integer(1), Syntax::Integer(2)],
        },
        vec![
            Instruction::LoadGlobal(String::from("myservice")),
            Instruction::LoadMember(String::from("myfunc")),
            Instruction::PushInteger(1),
            Instruction::PushInteger(2),
            Instruction::Call(3),
        ]
    );
}

#[test]
fn call_function_on_new_object_from_module() {
    // mymod::myservice(1, 2).print()
    expression_ok(
        Syntax::Call {
            position: Default::default(),
            target: Box::new(Syntax::MemberAccess {
                position: Default::default(),
                target: Box::new(Syntax::Call {
                    target: Box::new(Syntax::StaticAccess {
                        position: Default::default(),
                        target: Box::new(Syntax::Identifier {
                            name: String::from("mymod"),
                            position: Default::default()
                        }),
                        index: Box::new(Syntax::Identifier {
                            name: String::from("myservice"),
                            position: Default::default()
                        }),
                    }),
                    args: vec![
                        Syntax::Integer(1),
                        Syntax::Integer(2),
                    ],
                    position: Default::default(),
                }),
                index: Box::new(Syntax::Identifier {
                    name: String::from("print"),
                    position: Default::default()
                }),
            }),
            args: vec![],
        },
        vec![
            Instruction::LoadGlobal(String::from("mymod")),
            Instruction::PushIdentifier(String::from("myservice")),
            Instruction::GetCollectionItem,
            Instruction::PushInteger(1),
            Instruction::PushInteger(2),
            Instruction::Call(2),
            Instruction::LoadMember(String::from("print")),
            Instruction::Call(1),
        ]
    );
}

#[test]
fn test_identifier_assignment_with_member_access() {
    // kitchen.teacups = 2
    assignment_ok(
        Box::new(Syntax::MemberAccess {
            position: TokenPosition::default(),
            target: Box::new(Syntax::Identifier {
                position: TokenPosition::default(),
                name: "kitchen".to_string(),
            }),
            index: Box::new(Syntax::Identifier {
                position: TokenPosition::default(),
                name: "teacups".to_string(),
            }),
        }),
        Box::new(Syntax::Integer(2)),
        vec![
            Instruction::LoadGlobal("kitchen".to_string()),
            Instruction::PushIdentifier("teacups".to_string()),
            Instruction::PushInteger(2),
            Instruction::SetCollectionItem,
        ]
    );
}

#[test]
fn test_identifier_assignment_with_double_member_access() {
    // house.kitchen.teacups = 2
    assignment_ok(
        Box::new(Syntax::MemberAccess {
            position: TokenPosition::default(),
            target: Box::new(Syntax::MemberAccess {
                position: TokenPosition::default(),
                target: Box::new(Syntax::Identifier {
                    position: TokenPosition::default(),
                    name: "house".to_string(),
                }),
                index: Box::new(Syntax::Identifier {
                    position: TokenPosition::default(),
                    name: "kitchen".to_string(),
                }),
            }),
            index: Box::new(Syntax::Identifier {
                position: TokenPosition::default(),
                name: "teacups".to_string(),
            }),
        }),
        Box::new(Syntax::Integer(2)),
        vec![
            Instruction::LoadGlobal("house".to_string()),
            Instruction::LoadMember("kitchen".to_string()),
            Instruction::PushIdentifier("teacups".to_string()),
            Instruction::PushInteger(2),
            Instruction::SetCollectionItem,
        ]
    );
}

#[test]
fn while_loop_break_and_continue_jumps() {
    let p = TokenPosition::default();
    let mut g = Function::default();
    let body = vec![
        Syntax::Continue { position: p },
        Syntax::Break { position: p },
    ];
    let stmt = Syntax::WhileLoop { position: p, condition: Box::new(Syntax::Bool(true)), body };
    g.generate_statements(vec![stmt]).unwrap();
    assert_eq!(
        g.instructions,
        vec![
            Instruction::PushBool(true),
            Instruction::JumpForwardIfFalse(4),
            Instruction::JumpBackward(2),
            Instruction::JumpForward(2),
            Instruction::JumpBackward(4),
        ]
    );
}

#[test]
fn break_outside_of_a_loop_is_refused() {
    let p = TokenPosition::default();
    let mut g = Function::default();
    let r = g.generate_statements(vec![Syntax::Break { position: p }]);
    assert!(matches!(r, Err(CompilerError { error: CompilerErrorType::BreakOutsideOfLoop, .. })));
}

#[test]
fn if_chain_jumps_past_the_chain() {
    let p = TokenPosition::default();
    let mut g = Function::default();
    let arms = vec![
        Syntax::If { position: p, condition: Box::new(Syntax::Bool(false)), body: vec![Syntax::Print { position: p, expr: Box::new(Syntax::Integer(1)) }] },
        Syntax::Else { position: p, body: vec![Syntax::Print { position: p, expr: Box::new(Syntax::Integer(2)) }] },
    ];
    g.generate_statements(vec![Syntax::IfChain { position: p, arms }]).unwrap();
    assert_eq!(
        g.instructions,
        vec![
            Instruction::PushBool(false),
            Instruction::JumpForwardIfFalse(4),
            Instruction::PushInteger(1),
            Instruction::Print,
            Instruction::JumpForward(3),
            Instruction::PushInteger(2),
            Instruction::Print,
        ]
    );
}

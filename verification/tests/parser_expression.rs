use leoscript::parser::Parser;
use leoscript::syntax::{ParserError, ParserErrorType, Syntax, TokenPosition};

fn expr_ok(source: &str, expected: Syntax) {
    let r = match Parser::new(source).parse_expression() {
        Ok(r) => r,
        Err(e) => {
            assert!(false, "bad parse: {:?}", e);
            return;
        }
    };

    assert_eq!(r, expected);
}

fn expr_err(source: &str, _expected: ParserError) {
    match Parser::new(source).parse_expression() {
        Ok(m) => {
            assert!(false, "Expected error, got expression: {:?}", m);
        }
        Err(_) => {}
    }
}

#[test]
fn test_long_expression() {
    expr_ok("1 * 2 + 3 / 4 ^ 6 == 2 + (5 * magic(x, y))", Syntax::Eq {
        expr1: Box::from(Syntax::Add {
            expr1: Box::from(Syntax::Mul {
                expr1: Box::from(Syntax::Integer(1)),
                expr2: Box::from(Syntax::Integer(2)),
            }),
            expr2: Box::from(Syntax::Div {
                expr1: Box::from(Syntax::Integer(3)),
                expr2: Box::from(Syntax::Pow {
                    expr1: Box::from(Syntax::Integer(4)),
                    expr2: Box::from(Syntax::Integer(6)),
                }),
            }),
        }),
        expr2: Box::from(Syntax::Add {
            expr1: Box::from(Syntax::Integer(2)),
            expr2: Box::from(Syntax::Mul {
                expr1: Box::from(Syntax::Integer(5)),
                expr2: Box::from(Syntax::Call {
                    position: TokenPosition { line: 1, column: 31 },
                    target: Box::from(Syntax::Identifier {
                        position: TokenPosition { line: 1, column: 31 },
                        name: String::from("magic"),
                    }),
                    args: vec![
                        Syntax::Identifier {
                            position: TokenPosition { line: 1, column: 37 },
                            name: String::from("x"),
                        },
                        Syntax::Identifier {
                            position: TokenPosition { line: 1, column: 40 },
                            name: String::from("y"),
                        },
                    ],
                }),
            }),
        }),
    });
}

#[test]
fn test_bracket_math_with_multiply() {
    expr_ok("(1 + 2) * 3", Syntax::Mul {
        expr1: Box::new(Syntax::Add {
            expr1: Box::new(Syntax::Integer(1)),
            expr2: Box::new(Syntax::Integer(2)),
        }),
        expr2: Box::new(Syntax::Integer(3)),
    });
}

#[test]
fn test_double_bracket_math_with_boolean() {
    expr_ok("((1 + 2) == 3) == true", Syntax::Eq {
        expr1: Box::new(Syntax::Eq {
            expr1: Box::new(Syntax::Add {
                expr1: Box::new(Syntax::Integer(1)),
                expr2: Box::new(Syntax::Integer(2)),
            }),
            expr2: Box::new(Syntax::Integer(3)),
        }),
        expr2: Box::new(Syntax::Bool(true)),
    });
}

#[test]
fn test_order_of_operation_plus_and_multiply() {
    expr_ok("9 + 7 * 8", Syntax::Add {
        expr1: Box::from(Syntax::Integer(9)),
        expr2: Box::from(Syntax::Mul {
            expr1: Box::from(Syntax::Integer(7)),
            expr2: Box::from(Syntax::Integer(8)),
        }),
    });
}

#[test]
fn test_with_identifier() {
    expr_ok("9 + a * 8", Syntax::Add {
        expr1: Box::from(Syntax::Integer(9)),
        expr2: Box::from(Syntax::Mul {
            expr1: Box::from(Syntax::Identifier {
                position: TokenPosition { line: 1, column: 5 },
                name: String::from("a"),
            }),
            expr2: Box::from(Syntax::Integer(8)),
        }),
    });
}

#[test]
fn test_with_function_call() {
    expr_ok("a() + 7", Syntax::Add {
        expr1: Box::from(Syntax::Call {
            position: TokenPosition { line: 1, column: 1 },
            target: Box::from(Syntax::Identifier {
                position: TokenPosition { line: 1, column: 1 },
                name: String::from("a"),
            }),
            args: vec![],
        }),
        expr2: Box::from(Syntax::Integer(7)),
    });
}

#[test]
fn test_add() {
    expr_ok("1 + 2", Syntax::Add {
        expr1: Box::from(Syntax::Integer(1)),
        expr2: Box::from(Syntax::Integer(2)),
    });
}

#[test]
fn test_subtract() {
    expr_ok("1 - 2", Syntax::Sub {
        expr1: Box::from(Syntax::Integer(1)),
        expr2: Box::from(Syntax::Integer(2)),
    });
}

#[test]
fn test_multiply() {
    expr_ok("1 * 2", Syntax::Mul {
        expr1: Box::from(Syntax::Integer(1)),
        expr2: Box::from(Syntax::Integer(2)),
    });
}

#[test]
fn test_divide() {
    expr_ok("1 / 2", Syntax::Div {
        expr1: Box::from(Syntax::Integer(1)),
        expr2: Box::from(Syntax::Integer(2)),
    });
}

// --- Comparison operators ---

#[test]
fn test_equals() {
    expr_ok("1 == 2", Syntax::Eq {
        expr1: Box::from(Syntax::Integer(1)),
        expr2: Box::from(Syntax::Integer(2)),
    });
}

#[test]
fn test_not_equals() {
    expr_ok("1 != 2", Syntax::Ne {
        expr1: Box::from(Syntax::Integer(1)),
        expr2: Box::from(Syntax::Integer(2)),
    });
}

#[test]
fn test_not_equals_with_identifier() {
    expr_ok("a != 1", Syntax::Ne {
        expr1: Box::from(Syntax::Identifier {
            position: TokenPosition { line: 1, column: 1 },
            name: String::from("a"),
        }),
        expr2: Box::from(Syntax::Integer(1)),
    });
}

#[test]
fn test_less_than() {
    expr_ok("1 < 2", Syntax::Lt {
        expr1: Box::from(Syntax::Integer(1)),
        expr2: Box::from(Syntax::Integer(2)),
    });
}

#[test]
fn test_less_than_or_equal() {
    expr_ok("1 <= 2", Syntax::Le {
        expr1: Box::from(Syntax::Integer(1)),
        expr2: Box::from(Syntax::Integer(2)),
    });
}

#[test]
fn test_greater_than() {
    expr_ok("1 > 2", Syntax::Gt {
        expr1: Box::from(Syntax::Integer(1)),
        expr2: Box::from(Syntax::Integer(2)),
    });
}

#[test]
fn test_greater_than_or_equal() {
    expr_ok("1 >= 2", Syntax::Ge {
        expr1: Box::from(Syntax::Integer(1)),
        expr2: Box::from(Syntax::Integer(2)),
    });
}

#[test]
fn test_pow() {
    expr_ok("1 ^ 3", Syntax::Pow {
        expr1: Box::from(Syntax::Integer(1)),
        expr2: Box::from(Syntax::Integer(3)),
    });
}

// --- Literals ---

#[test]
fn test_integer() {
    expr_ok("1", Syntax::Integer(1));
}

#[test]
fn test_float() {
    expr_ok("1.5", Syntax::Float(String::from("1.5")));
}

#[test]
fn test_string() {
    expr_ok("\"hello\"", Syntax::String(String::from("hello")));
}

#[test]
fn test_bool_true() {
    expr_ok("true", Syntax::Bool(true));
}

#[test]
fn test_bool_false() {
    expr_ok("false", Syntax::Bool(false));
}

// -- Function calls ---

#[test]
fn test_function_call_with_no_args() {
    expr_ok("a()", Syntax::Call {
        position: TokenPosition { line: 1, column: 1 },
        target: Box::from(Syntax::Identifier {
            position: TokenPosition { line: 1, column: 1 },
            name: String::from("a"),
        }),
        args: vec![],
    });
}

#[test]
fn test_function_call_with_one_arg() {
    expr_ok("a(1)", Syntax::Call {
        position: TokenPosition { line: 1, column: 1 },
        target: Box::from(Syntax::Identifier {
            position: TokenPosition { line: 1, column: 1 },
            name: String::from("a"),
        }),
        args: vec![Syntax::Integer(1)],
    });
}

#[test]
fn test_function_call_with_two_args() {
    expr_ok("a(1, 2)", Syntax::Call {
        position: TokenPosition { line: 1, column: 1 },
        target: Box::from(Syntax::Identifier {
            position: TokenPosition { line: 1, column: 1 },
            name: String::from("a"),
        }),
        args: vec![Syntax::Integer(1), Syntax::Integer(2)],
    });
}

// --- Logical operators ---

#[test]
fn test_logical_and() {
    expr_ok("a == 1 and b == 2", Syntax::And {
        expr1: Box::from(Syntax::Eq {
            expr1: Box::from(Syntax::Identifier {
                position: TokenPosition { line: 1, column: 1 },
                name: String::from("a"),
            }),
            expr2: Box::from(Syntax::Integer(1)),
        }),
        expr2: Box::from(Syntax::Eq {
            expr1: Box::from(Syntax::Identifier {
                position: TokenPosition { line: 1, column: 12 },
                name: String::from("b"),
            }),
            expr2: Box::from(Syntax::Integer(2)),
        }),
    });
}

#[test]
fn test_logical_or() {
    expr_ok("a == 9.9 or b == 2", Syntax::Or {
        expr1: Box::from(Syntax::Eq {
            expr1: Box::from(Syntax::Identifier {
                position: TokenPosition { line: 1, column: 1 },
                name: String::from("a"),
            }),
            expr2: Box::from(Syntax::Float(String::from("9.9"))),
        }),
        expr2: Box::from(Syntax::Eq {
            expr1: Box::from(Syntax::Identifier {
                position: TokenPosition { line: 1, column: 13 },
                name: String::from("b"),
            }),
            expr2: Box::from(Syntax::Integer(2)),
        }),
    });
}

#[test]
fn test_logical_not() {
    expr_ok("not a == 1", Syntax::Not {
        expr: Box::from(Syntax::Eq {
            expr1: Box::from(Syntax::Identifier {
                position: TokenPosition { line: 1, column: 5 },
                name: String::from("a"),
            }),
            expr2: Box::from(Syntax::Integer(1)),
        }),
    });
}

#[test]
fn test_order_of_and_or() {
    expr_ok("x > 0 AND y < 10 OR z == 5", Syntax::Or {
        expr1: Box::from(Syntax::And {
            expr1: Box::from(Syntax::Gt {
                expr1: Box::from(Syntax::Identifier {
                    position: TokenPosition { line: 1, column: 1 },
                    name: String::from("x"),
                }),
                expr2: Box::from(Syntax::Integer(0)),
            }),
            expr2: Box::from(Syntax::Lt {
                expr1: Box::from(Syntax::Identifier {
                    position: TokenPosition { line: 1, column: 11 },
                    name: String::from("y"),
                }),
                expr2: Box::from(Syntax::Integer(10)),
            }),
        }),
        expr2: Box::from(Syntax::Eq {
            expr1: Box::from(Syntax::Identifier {
                position: TokenPosition { line: 1, column: 21 },
                name: String::from("z"),
            }),
            expr2: Box::from(Syntax::Integer(5)),
        }),
    });
}

// --- Data access ---

#[test]
fn test_array_access() {
    expr_ok("a[1]", Syntax::ArrayAccess {
        position: TokenPosition { line: 1, column: 3 },
        target: Box::from(Syntax::Identifier {
            position: TokenPosition { line: 1, column: 1 },
            name: String::from("a"),
        }),
        index: Box::from(Syntax::Integer(1)),
    });
}

#[test]
fn test_array_access_with_math() {
    expr_ok("a[1] + b[2]", Syntax::Add {
        expr1: Box::from(Syntax::ArrayAccess {
            position: TokenPosition { line: 1, column: 3 },
            target: Box::from(Syntax::Identifier {
                position: TokenPosition { line: 1, column: 1 },
                name: String::from("a"),
            }),
            index: Box::from(Syntax::Integer(1)),
        }),
        expr2: Box::from(Syntax::ArrayAccess {
            position: TokenPosition { line: 1, column: 10 },
            target: Box::from(Syntax::Identifier {
                position: TokenPosition { line: 1, column: 8 },
                name: String::from("b"),
            }),
            index: Box::from(Syntax::Integer(2)),
        }),
    });
}

#[test]
fn test_multi_dimension_array_access() {
    expr_ok("a[1][2]", Syntax::ArrayAccess {
        position: TokenPosition { line: 1, column: 6 },
        target: Box::from(Syntax::ArrayAccess {
            position: TokenPosition { line: 1, column: 3 },
            target: Box::from(Syntax::Identifier {
                position: TokenPosition { line: 1, column: 1 },
                name: String::from("a"),
            }),
            index: Box::from(Syntax::Integer(1)),
        }),
        index: Box::from(Syntax::Integer(2)),
    });
}

#[test]
fn test_multi_dimension_array_access_with_function_call() {
    expr_ok("f()[1][2]", Syntax::ArrayAccess {
        position: TokenPosition { line: 1, column: 8 },
        target: Box::from(Syntax::ArrayAccess {
            position: TokenPosition { line: 1, column: 5 },
            target: Box::from(Syntax::Call {
                position: TokenPosition { line: 1, column: 1 },
                target: Box::from(Syntax::Identifier {
                    position: TokenPosition { line: 1, column: 1 },
                    name: String::from("f"),
                }),
                args: vec![],
            }),
            index: Box::from(Syntax::Integer(1)),
        }),
        index: Box::from(Syntax::Integer(2)),
    });
}

#[test]
fn test_multi_dimension_array_access_with_function_call2() {
    expr_ok("f[1]()[2]", Syntax::ArrayAccess {
        position: TokenPosition { line: 1, column: 8 },
        target: Box::from(Syntax::Call {
            position: TokenPosition { line: 1, column: 3 },
            target: Box::from(Syntax::ArrayAccess {
                position: TokenPosition { line: 1, column: 3 },
                target: Box::from(Syntax::Identifier {
                    position: TokenPosition { line: 1, column: 1 },
                    name: String::from("f"),
                }),
                index: Box::from(Syntax::Integer(1)),
            }),
            args: vec![],
        }),
        index: Box::from(Syntax::Integer(2)),
    });
}

#[test]
fn test_identifier_chain_simple() {
    expr_ok("library.shelves.books", Syntax::MemberAccess {
        position: TokenPosition { line: 1, column: 17 },
        index: Box::from(Syntax::Identifier {
            position: TokenPosition { line: 1, column: 17 },
            name: String::from("books"),
        }),
        target: Box::from(Syntax::MemberAccess {
            position: TokenPosition { line: 1, column: 9 },
            index: Box::from(Syntax::Identifier {
                position: TokenPosition { line: 1, column: 9 },
                name: String::from("shelves"),
            }),
            target: Box::from(Syntax::Identifier {
                position: TokenPosition { line: 1, column: 1 },
                name: String::from("library"),
            }),
        }),
    });
}

#[test]
fn test_identifier_chain_with_array_int_access() {
    expr_ok("library.shelf[1].books", Syntax::MemberAccess {
        position: TokenPosition { line: 1, column: 18 },
        index: Box::from(Syntax::Identifier {
            position: TokenPosition { line: 1, column: 18 },
            name: String::from("books"),
        }),
        target: Box::from(Syntax::ArrayAccess {
            position: TokenPosition { line: 1, column: 15 },
            index: Box::from(Syntax::Integer(1)),
            target: Box::from(Syntax::MemberAccess {
                position: TokenPosition { line: 1, column: 9 },
                index: Box::from(Syntax::Identifier {
                    position: TokenPosition { line: 1, column: 9 },
                    name: String::from("shelf"),
                }),
                target: Box::from(Syntax::Identifier {
                    position: TokenPosition { line: 1, column: 1 },
                    name: String::from("library"),
                }),
            }),
        }),
    });
}

#[test]
fn test_member_call_on_function_call() {
    expr_ok(r#"get_books().first()"#, Syntax::Call {
        position: TokenPosition { line: 1, column: 13 },
        target: Box::from(Syntax::MemberAccess {
            position: TokenPosition { line: 1, column: 13 },
            index: Box::from(Syntax::Identifier {
                position: TokenPosition { line: 1, column: 13 },
                name: String::from("first"),
            }),
            target: Box::from(Syntax::Call {
                position: TokenPosition { line: 1, column: 1 },
                target: Box::from(Syntax::Identifier {
                    position: TokenPosition { line: 1, column: 1 },
                    name: String::from("get_books"),
                }),
                args: vec![],
            }),
        }),
        args: vec![],
    });
}

#[test]
fn test_function_call_on_parent() {
    expr_ok(r#"svc.something()"#, Syntax::Call {
        position: TokenPosition { line: 1, column: 5 },
        target: Box::from(Syntax::MemberAccess {
            position: TokenPosition { line: 1, column: 5 },
            index: Box::from(Syntax::Identifier {
                position: TokenPosition { line: 1, column: 5 },
                name: String::from("something"),
            }),
            target: Box::from(Syntax::Identifier {
                position: TokenPosition { line: 1, column: 1 },
                name: String::from("svc"),
            }),
        }),
        args: vec![],
    });
}

#[test]
fn test_enum_access() {
    expr_ok("Color.Red", Syntax::MemberAccess {
        position: TokenPosition { line: 1, column: 7 },
        index: Box::from(Syntax::Identifier {
            position: TokenPosition { line: 1, column: 7 },
            name: String::from("Red"),
        }),
        target: Box::from(Syntax::Identifier {
            position: TokenPosition { line: 1, column: 1 },
            name: String::from("Color"),
        }),
    });
}

#[test]
fn test_invalid_member_access_with_non_identifier() {
    expr_err("books.6[a]", ParserError {
        position: TokenPosition { line: 1, column: 7 },
        error: ParserErrorType::InvalidMemberAccess,
    });
}

#[test]
fn test_access_index_is_expression() {
    expr_ok("page[chapter + 3]", Syntax::ArrayAccess {
        position: TokenPosition { line: 1, column: 6 },
        target: Box::from(Syntax::Identifier {
            position: TokenPosition { line: 1, column: 1 },
            name: String::from("page"),
        }),
        index: Box::from(Syntax::Add {
            expr1: Box::from(Syntax::Identifier {
                position: TokenPosition { line: 1, column: 6 },
                name: String::from("chapter"),
            }),
            expr2: Box::from(Syntax::Integer(3)),
        }),
    });
}

#[test]
fn array_access_on_class_attribute() {
    expr_ok("book.authors[0]", Syntax::ArrayAccess {
        position: TokenPosition { line: 1, column: 14 },
        target: Box::from(Syntax::MemberAccess {
            position: TokenPosition { line: 1, column: 6 },
            index: Box::from(Syntax::Identifier {
                position: TokenPosition { line: 1, column: 6 },
                name: String::from("authors"),
            }),
            target: Box::from(Syntax::Identifier {
                position: TokenPosition { line: 1, column: 1 },
                name: String::from("book"),
            }),
        }),
        index: Box::from(Syntax::Integer(0)),
    });
}

#[test]
fn test_member_access_with_square_brackets() {
    expr_ok(r#"library["shelves"]["books"]"#, Syntax::ArrayAccess {
        position: TokenPosition { line: 1, column: 20 },
        index: Box::from(Syntax::String(String::from("books"))),
        target: Box::from(Syntax::ArrayAccess {
            position: TokenPosition { line: 1, column: 9 },
            index: Box::from(Syntax::String(String::from("shelves"))),
            target: Box::from(Syntax::Identifier {
                position: TokenPosition { line: 1, column: 1 },
                name: String::from("library"),
            }),
        }),
    });
}

// --- New object ---

#[test]
fn test_new_object() {
    expr_ok(r#"new Book("Frankenstein")"#, Syntax::NewObject {
        position: TokenPosition { line: 1, column: 1 },
        target: Box::from(Syntax::Identifier {
            position: TokenPosition { line: 1, column: 5 },
            name: String::from("Book"),
        }),
        args: vec![
            Syntax::String(String::from("Frankenstein")),
        ],
    });
}

#[test]
fn new_object_from_module() {
    expr_ok(r#"new Library::Book("Frankenstein")"#, Syntax::NewObject {
        position: TokenPosition { line: 1, column: 1 },
        target: Box::from(Syntax::StaticAccess {
            position: TokenPosition { line: 1, column: 14 },
            index: Box::from(Syntax::Identifier {
                position: TokenPosition { line: 1, column: 14 },
                name: String::from("Book"),
            }),
            target: Box::from(Syntax::Identifier {
                position: TokenPosition { line: 1, column: 5 },
                name: String::from("Library"),
            }),
        }),
        args: vec![
            Syntax::String(String::from("Frankenstein")),
        ],
    });
}

#[test]
fn test_member_call_on_new_object() {
    expr_ok(r#"new Book("Christmas Carol").publish()"#, Syntax::Call {
        position: TokenPosition { line: 1, column: 29 },
        target: Box::from(Syntax::MemberAccess {
            position: TokenPosition { line: 1, column: 29 },
            index: Box::from(Syntax::Identifier {
                position: TokenPosition { line: 1, column: 29 },
                name: String::from("publish"),
            }),
            target: Box::from(Syntax::NewObject {
                position: TokenPosition { line: 1, column: 1 },
                target: Box::from(Syntax::Identifier {
                    position: TokenPosition { line: 1, column: 5 },
                    name: String::from("Book"),
                }),
                args: vec![
                    Syntax::String(String::from("Christmas Carol")),
                ],
            }),
        }),
        args: vec![],
    });
}

// --- Array ---

#[test]
fn test_array() {
    expr_ok("[1, 2, 3]", Syntax::Array(vec![
        Syntax::Integer(1),
        Syntax::Integer(2),
        Syntax::Integer(3),
    ]));
}

#[test]
fn test_array_with_math() {
    expr_ok("[1, (a + b), 3]", Syntax::Array(vec![
        Syntax::Integer(1),
        Syntax::Add {
            expr1: Box::from(Syntax::Identifier {
                position: TokenPosition { line: 1, column: 6 },
                name: String::from("a"),
            }),
            expr2: Box::from(Syntax::Identifier {
                position: TokenPosition { line: 1, column: 10 },
                name: String::from("b"),
            }),
        },
        Syntax::Integer(3),
    ]));
}

#[test]
fn test_deep_array() {
    expr_ok("[1, 2, [3, 4, [5, 6]], [7, 8]]", Syntax::Array(vec![
        Syntax::Integer(1),
        Syntax::Integer(2),
        Syntax::Array(vec![
            Syntax::Integer(3),
            Syntax::Integer(4),
            Syntax::Array(vec![
                Syntax::Integer(5),
                Syntax::Integer(6),
            ]),
        ]),
        Syntax::Array(vec![
            Syntax::Integer(7),
            Syntax::Integer(8),
        ]),
    ]));
}

// --- Maps ---

#[test]
fn map_with_1_dimension() {
    let mut expected_map = Vec::new();
    expected_map.push((String::from("one"), Syntax::Integer(1)));
    expected_map.push((String::from("two"), Syntax::Integer(2)));
    expected_map.push((String::from("three"), Syntax::Integer(3)));

    expr_ok(r#"{one: 1, two : 2, three : 3}"#, Syntax::Dictionary(expected_map));
}

#[test]
fn map_with_2_dimensions() {
    let mut expected_map2 = Vec::new();
    expected_map2.push((String::from("five"), Syntax::Integer(5)));
    expected_map2.push((String::from("six"), Syntax::Integer(6)));

    let mut expected_map3 = Vec::new();
    expected_map3.push((String::from("eight"), Syntax::Integer(8)));
    expected_map3.push((String::from("nine"), Syntax::Integer(9)));

    let mut expected_map = Vec::new();
    expected_map.push((String::from("one"), Syntax::Integer(1)));
    expected_map.push((String::from("two"), Syntax::Integer(2)));
    expected_map.push((String::from("three"), Syntax::Integer(3)));
    expected_map.push((String::from("four"), Syntax::Dictionary(expected_map2)));
    expected_map.push((String::from("seven"), Syntax::Dictionary(expected_map3)));

    expr_ok(r#"{one: 1, two : 2, three : 3, four: {five: 5, six: 6}, seven: {eight: 8, nine: 9}}"#, Syntax::Dictionary(expected_map));
}

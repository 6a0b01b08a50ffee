use leoscript::error::RuntimeError;
use leoscript::frame::Frame;
use leoscript::lexer::LexerError;
use leoscript::ops::{binary, BinaryOp, Outcome};
use leoscript::parser::Parser;
use leoscript::script::{compile, generate_program};
use leoscript::stdlib::{compile_dictionary_class, compile_math_module, compile_string_class};
use leoscript::syntax::{CompilerErrorType, ParserErrorType, Syntax, TokenPosition};
use leoscript::table::Table;
use leoscript::variant::{Counter, Variant};
use leoscript::vm::{Step, Thread};

/// Runs `entry` of `source` to its end; host steps are not expected.
fn run(source: &str, entry: &str, args: Option<Vec<Variant>>) -> Result<Option<Variant>, RuntimeError> {
    let compiled = compile(source).expect("compiles");
    let mut thread = Thread::load_program(compiled.program)?;
    compile_string_class(&mut thread);
    compile_math_module(&mut thread);
    compile_dictionary_class(&mut thread);
    let mut e = thread.begin(entry, args)?;
    for _ in 0..100_000 {
        match thread.step(&mut e)? {
            Step::Next => {}
            Step::Finished(v) => return Ok(v),
            other => panic!("unexpected host step {:?}", other),
        }
    }
    panic!("did not finish")
}

fn value(outcome: Outcome) -> Variant {
    match outcome {
        Outcome::Value(v) => v,
        Outcome::Float => panic!("left to the host"),
    }
}

#[test]
fn arithmetic_program_returns_its_value() {
    let source = r#"
        function main()
            var x = 1 + 2
            return x * 4
        end
    "#;
    assert_eq!(run(source, "main", None), Ok(Some(Variant::Integer(12))));
}

#[test]
fn while_loop_and_if_run() {
    let source = r#"
        function main(n)
            var total = 0
            var i = 0
            while i < n do
                i = i + 1
                if i == 3 then
                    continue
                end
                total = total + i
            end
            return total
        end
    "#;
    assert_eq!(run(source, "main", Some(vec![Variant::Integer(5)])), Ok(Some(Variant::Integer(12))));
}

#[test]
fn call_and_return_between_functions() {
    let source = r#"
        function double(x)
            return x * 2
        end

        function main()
            return double(double(5)) + 1
        end
    "#;
    assert_eq!(run(source, "main", None), Ok(Some(Variant::Integer(21))));
}

#[test]
fn for_range_loop_sums() {
    let source = r#"
        function main()
            var total = 0
            for x = 1 to 4 do
                total = total + x
            end
            return total
        end
    "#;
    assert_eq!(run(source, "main", None), Ok(Some(Variant::Integer(10))));
}

#[test]
fn dictionary_class_from_a_script() {
    let source = r#"
        function main()
            var d = Dictionary()
            d.set("a", 5)
            d.set("b", 7)
            return d.get("a") + d.length()
        end
    "#;
    assert_eq!(run(source, "main", None), Ok(Some(Variant::Integer(7))));
}

#[test]
fn math_module_from_a_script() {
    let source = r#"
        function main()
            return Math.max(3, 9) - Math.abs(-2)
        end
    "#;
    assert_eq!(run(source, "main", None), Ok(Some(Variant::Integer(7))));
}

#[test]
fn missing_entry_point_is_an_error() {
    let source = r#"
        function main()
            return 1
        end
    "#;
    assert_eq!(run(source, "start", None), Err(RuntimeError::EntryPointNotFound(String::from("start"))));
}

#[test]
fn empty_program_is_refused() {
    let compiled = compile("").expect("compiles");
    assert_eq!(Thread::load_program(compiled.program).err(), Some(RuntimeError::NoInstructions));
}

#[test]
fn syntax_error_is_a_compiler_error() {
    match compile("function main( return end") {
        Err(e) => assert!(matches!(e.error, CompilerErrorType::ParseError(_))),
        Ok(_) => panic!("expected a syntax error"),
    }
}

#[test]
fn out_of_range_integer_literal_is_refused() {
    let r = Parser::new("99999999999999999999").parse_expression();
    assert_eq!(r.map_err(|e| e.error), Err(ParserErrorType::InvalidLiteral(String::from("99999999999999999999"))));
}

#[test]
fn sub_undoes_add_with_wrap_around() {
    let a = Variant::Integer(i64::MAX);
    let b = Variant::Integer(5);
    let sum = value(binary(BinaryOp::Add, &a, &b));
    assert_eq!(sum, Variant::Integer(i64::MIN + 4));
    assert_eq!(value(binary(BinaryOp::Sub, &sum, &b)), a);
}

#[test]
fn equality_and_comparisons() {
    let a = Variant::Integer(3);
    let b = Variant::Integer(8);
    assert_eq!(value(binary(BinaryOp::LessThan, &a, &b)), value(binary(BinaryOp::GreaterThan, &b, &a)));
    assert_eq!(value(binary(BinaryOp::LessThanOrEqual, &b, &a)), Variant::Bool(false));
    let s = Variant::Array(vec![Variant::String(String::from("x")), Variant::Integer(1)]);
    assert_eq!(value(binary(BinaryOp::Equal, &s, &s)), Variant::Bool(true));
    assert_eq!(value(binary(BinaryOp::NotEqual, &s, &s)), Variant::Bool(false));
    assert_eq!(value(binary(BinaryOp::Divide, &a, &Variant::Integer(0))), Variant::Null);
    assert!(matches!(binary(BinaryOp::Add, &Variant::Float(0), &a), Outcome::Float));
    assert_eq!(
        value(binary(BinaryOp::Add, &Variant::String(String::from("ab")), &Variant::String(String::from("cd")))),
        Variant::String(String::from("abcd"))
    );
}

#[test]
fn frame_variable_read_after_write() {
    let mut f = Frame::default();
    assert_eq!(f.set_variable(2, Variant::Integer(9)), Ok(()));
    assert_eq!(f.get_variable(2), Ok(&Variant::Integer(9)));
    assert_eq!(f.get_variable(0), Ok(&Variant::Null));
    assert_eq!(f.get_variable(3), Err(RuntimeError::InvalidVariableIndex(3)));
    assert_eq!(f.set_variable(0, Variant::Bool(true)), Ok(()));
    assert_eq!(f.get_variable(0), Ok(&Variant::Bool(true)));
    assert_eq!(f.get_variable(2), Ok(&Variant::Integer(9)));
}

#[test]
fn table_insert_remove_get() {
    let mut t = Table::new();
    t.insert(String::from("a"), 1);
    t.insert(String::from("b"), 2);
    t.insert(String::from("a"), 3);
    assert_eq!(t.len(), 2);
    assert_eq!(t.get("a"), Some(&3));
    assert_eq!(t.key_at(0), "a");
    t.remove("a");
    assert_eq!(t.get("a"), None);
    assert_eq!(t.get("b"), Some(&2));
    t.clear();
    assert_eq!(t.len(), 0);
}

#[test]
fn counter_walks_a_range() {
    let mut c = Counter::new(1, 2, Variant::Integer(3));
    assert_eq!(c.next(), Some(Variant::Integer(1)));
    assert_eq!(c.next(), Some(Variant::Integer(3)));
    assert_eq!(c.next(), Some(Variant::Integer(5)));
    assert_eq!(c.next(), None);
}

#[test]
fn parser_reports_lexer_stop() {
    let mut p = Parser::new("1 + $");
    let r = p.parse_expression();
    assert!(r.is_err());
    let _ = LexerError::NoMatch;
}

#[test]
fn imports_are_kept_as_paths() {
    let r = Parser::parse("import lib.util\nfunction main()\nend").unwrap();
    match &r.syntax_tree[0] {
        Syntax::Import { path, .. } => assert_eq!(path, "lib/util.leo"),
        other => panic!("unexpected {:?}", other),
    }
}

#[test]
fn module_with_a_statement_is_refused() {
    let p = TokenPosition::default();
    let module = Syntax::Module {
        position: p,
        module_name: Box::new(Syntax::Identifier { position: p, name: String::from("m") }),
        body: vec![Syntax::Print { position: p, expr: Box::new(Syntax::Integer(1)) }],
    };
    match generate_program(vec![module]) {
        Err(e) => assert!(matches!(e.error, CompilerErrorType::FeatureNotImplemented)),
        Ok(_) => panic!("a module holds no statements"),
    }
}

#[test]
fn counter_counts_values_not_an_end() {
    let mut c = Counter::new(1, 2, Variant::Integer(3));
    assert_eq!(c.next(), Some(Variant::Integer(1)));
    assert_eq!(c.next(), Some(Variant::Integer(3)));
    assert_eq!(c.next(), Some(Variant::Integer(5)));
    assert_eq!(c.next(), None);
    assert_eq!(c.next(), None);
}

#[test]
fn counter_over_null_gives_nothing() {
    let mut c = Counter::new(0, 1, Variant::Null);
    assert_eq!(c.next(), None);
}

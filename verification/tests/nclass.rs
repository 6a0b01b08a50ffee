use leoscript::nclass::{MyClass, NativeClass};
use leoscript::variant::Variant;

#[test]
fn test() {
    let my_class = MyClass::new();
    let my_class = my_class.constructor(vec![Variant::Integer(42)]).unwrap();
    let result = my_class.call("get_value", vec![Variant::Integer(0)]).unwrap();
    assert_eq!(result, Some(Box::new(Variant::Integer(42))));
}

#[test]
fn native_class_returns_argument_by_position() {
    let my_class = MyClass::new()
        .constructor(vec![Variant::Integer(1), Variant::String(String::from("two")), Variant::Bool(true)])
        .unwrap();
    let result = my_class.call("get_value", vec![Variant::Integer(1)]).unwrap();
    assert_eq!(result, Some(Box::new(Variant::String(String::from("two")))));
    let result = my_class.call("get_value", vec![Variant::Integer(2)]).unwrap();
    assert_eq!(result, Some(Box::new(Variant::Bool(true))));
}

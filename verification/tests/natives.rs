use leoscript::error::RuntimeError;
use leoscript::natives::{
    dict_clear, dict_constructor, dict_contains_key, dict_get, dict_keys, dict_length, dict_remove, dict_set,
    dict_values, math_abs, math_max, math_min, string_constructor, string_length,
};
use leoscript::table::Table;
use leoscript::variant::{Heap, Variant, INTERNAL_CLASS_VALUE};

const TEST_STRING: &str = "I am a test string";

/// An object whose internal value is the dictionary {a: 1, b: 2, c: 3}.
fn construct_dictionary(heap: &mut Heap) -> Variant {
    let mut test_map = Table::new();
    test_map.insert(String::from("a"), Variant::Integer(1));
    test_map.insert(String::from("b"), Variant::Integer(2));
    test_map.insert(String::from("c"), Variant::Integer(3));

    let mut class = Table::new();
    class.insert(String::from(INTERNAL_CLASS_VALUE), Variant::Dict(test_map));
    heap.allocate(class)
}

/// An object whose internal value is `TEST_STRING`.
fn construct_string(heap: &mut Heap) -> Variant {
    let mut class = Table::new();
    class.insert(String::from(INTERNAL_CLASS_VALUE), Variant::String(String::from(TEST_STRING)));
    heap.allocate(class)
}

fn text(s: &str) -> Variant {
    Variant::String(String::from(s))
}

#[test]
fn dictionary_test_constructor() {
    let mut heap = Heap::new();
    let input = vec![construct_dictionary(&mut heap)];

    match dict_constructor(&mut heap, input) {
        Ok(Some(Variant::Object(id))) => {
            if let Some(value) = heap.get(id).unwrap().get(INTERNAL_CLASS_VALUE) {
                if let Variant::Dict(map) = value {
                    assert_eq!(map.len(), 3);
                } else {
                    assert!(false, "value not a map");
                }
            } else {
                assert!(false, "internal value not found");
            }
        }
        _ => assert!(false, "constructor failed"),
    }
}

#[test]
fn test_dict_get() {
    let mut heap = Heap::new();
    let input = vec![construct_dictionary(&mut heap), text("a")];

    match dict_get(&heap, input) {
        Ok(Some(Variant::Integer(1))) => assert!(true),
        _ => assert!(false, "get failed"),
    }
}

#[test]
fn test_dict_set_and_get() {
    let mut heap = Heap::new();
    let test_key = text("d");
    let test_value = Variant::Integer(10);
    let class = construct_dictionary(&mut heap);
    let input = vec![class.copy(), test_key.copy(), test_value.copy()];

    match dict_set(&mut heap, input) {
        Ok(None) => assert!(true),
        _ => assert!(false, "set failed"),
    }

    match dict_get(&heap, vec![class.copy(), test_key.copy()]) {
        Ok(Some(Variant::Integer(i))) => assert_eq!(i, 10),
        _ => assert!(false, "get failed"),
    }
}

#[test]
fn dictionary_test_length() {
    let mut heap = Heap::new();
    let input = vec![construct_dictionary(&mut heap)];
    assert_eq!(dict_length(&heap, input), Ok(Some(Variant::Integer(3))));
}

#[test]
fn test_dict_clear() {
    let mut heap = Heap::new();
    let object = construct_dictionary(&mut heap);

    let _ = dict_clear(&mut heap, vec![object.copy()]);

    assert_eq!(dict_length(&heap, vec![object.copy()]), Ok(Some(Variant::Integer(0))));
}

#[test]
fn test_dict_keys() {
    let mut heap = Heap::new();
    let input = vec![construct_dictionary(&mut heap)];

    match dict_keys(&heap, input) {
        Ok(Some(Variant::Array(keys))) => {
            assert_eq!(keys.len(), 3);
            assert!(keys.contains(&text("a")), "does not contain a");
            assert!(keys.contains(&text("b")), "does not contain b");
            assert!(keys.contains(&text("c")), "does not contain c");
        }
        _ => assert!(false, "keys failed"),
    }
}

#[test]
fn test_dict_values() {
    let mut heap = Heap::new();
    let input = vec![construct_dictionary(&mut heap)];

    match dict_values(&heap, input) {
        Ok(Some(Variant::Array(values))) => {
            assert_eq!(values.len(), 3);
            assert!(values.contains(&Variant::Integer(1)), "does not contain 1");
            assert!(values.contains(&Variant::Integer(2)), "does not contain 2");
            assert!(values.contains(&Variant::Integer(3)), "does not contain 3");
        }
        _ => assert!(false, "values failed"),
    }
}

#[test]
fn test_dict_contains_key() {
    let mut heap = Heap::new();
    let input = vec![construct_dictionary(&mut heap), text("a")];

    match dict_contains_key(&heap, input) {
        Ok(Some(Variant::Bool(true))) => assert!(true),
        _ => assert!(false, "contains_key failed"),
    }
}

#[test]
fn dictionary_keys_keep_insertion_order() {
    let mut heap = Heap::new();
    let object = construct_dictionary(&mut heap);
    let _ = dict_set(&mut heap, vec![object.copy(), text("a"), Variant::Integer(7)]);
    let _ = dict_set(&mut heap, vec![object.copy(), text("z"), Variant::Integer(9)]);
    assert_eq!(
        dict_keys(&heap, vec![object.copy()]),
        Ok(Some(Variant::Array(vec![text("a"), text("b"), text("c"), text("z")])))
    );
    assert_eq!(
        dict_values(&heap, vec![object.copy()]),
        Ok(Some(Variant::Array(vec![
            Variant::Integer(7),
            Variant::Integer(2),
            Variant::Integer(3),
            Variant::Integer(9)
        ])))
    );
}

#[test]
fn dictionary_remove_then_missing() {
    let mut heap = Heap::new();
    let object = construct_dictionary(&mut heap);
    assert_eq!(dict_remove(&mut heap, vec![object.copy(), text("b")]), Ok(None));
    assert_eq!(dict_contains_key(&heap, vec![object.copy(), text("b")]), Ok(Some(Variant::Bool(false))));
    assert_eq!(dict_contains_key(&heap, vec![object.copy(), text("a")]), Ok(Some(Variant::Bool(true))));
    assert_eq!(dict_length(&heap, vec![object.copy()]), Ok(Some(Variant::Integer(2))));
}

#[test]
fn dictionary_errors() {
    let mut heap = Heap::new();
    let object = construct_dictionary(&mut heap);
    assert_eq!(
        dict_get(&heap, vec![object.copy(), text("nope")]),
        Err(RuntimeError::InvalidNativeFunction(String::from("Dictionary.get")))
    );
    assert_eq!(dict_get(&heap, vec![object.copy()]), Err(RuntimeError::UnknownNativeParameterToken));
    assert_eq!(
        dict_set(&mut heap, vec![object.copy(), text("k")]),
        Err(RuntimeError::UnknownNativeParameterToken)
    );
    assert_eq!(
        dict_length(&heap, vec![Variant::Integer(3)]),
        Err(RuntimeError::InvalidNativeFunction(String::from("get object value")))
    );
    assert_eq!(
        dict_constructor(&mut heap, vec![Variant::Null]),
        Err(RuntimeError::InvalidNativeFunction(String::from("self")))
    );
}

#[test]
fn string_test_constructor() {
    let mut heap = Heap::new();
    let input = vec![construct_string(&mut heap)];

    match string_constructor(&mut heap, input) {
        Ok(Some(Variant::Object(id))) => {
            if let Some(value) = heap.get(id).unwrap().get(INTERNAL_CLASS_VALUE) {
                if let Variant::String(v) = value {
                    assert_eq!(v, TEST_STRING);
                } else {
                    assert!(false, "value not a string");
                }
            } else {
                assert!(false, "internal value not found");
            }
        }
        _ => assert!(false, "constructor failed"),
    }
}

#[test]
fn string_test_length() {
    let mut heap = Heap::new();
    let input = vec![construct_string(&mut heap)];
    assert_eq!(string_length(&heap, input), Ok(Some(Variant::Integer(TEST_STRING.len() as i64))));
}

#[test]
fn string_constructor_sets_value_and_length_counts_bytes() {
    let mut heap = Heap::new();
    let object = heap.allocate(Table::new());
    let mut members = Table::new();
    members.insert(String::from(INTERNAL_CLASS_VALUE), Variant::Null);
    let object2 = heap.allocate(members);
    assert_eq!(
        string_constructor(&mut heap, vec![object2.copy(), text("héllo")]),
        Ok(Some(object2.copy()))
    );
    assert_eq!(string_length(&heap, vec![object2.copy()]), Ok(Some(Variant::Integer(6))));
    assert_eq!(
        string_length(&heap, vec![object.copy()]),
        Err(RuntimeError::InvalidNativeFunction(String::from("String.length")))
    );
    assert_eq!(string_length(&heap, vec![]), Err(RuntimeError::ExpectedSelfForNativeFunction));
}

#[test]
fn test_math_max() {
    let input = vec![Variant::Module(Table::new()), Variant::Integer(1), Variant::Integer(2)];

    let expected = Variant::Integer(2);

    match math_max(input) {
        Ok(Some(v)) => assert_eq!(v, expected),
        _ => assert!(false),
    }
}

#[test]
fn test_math_min() {
    let input = vec![Variant::Module(Table::new()), Variant::Integer(1), Variant::Integer(2)];

    let expected = Variant::Integer(1);

    match math_min(input) {
        Ok(Some(v)) => assert_eq!(v, expected),
        _ => assert!(false),
    }
}

#[test]
fn test_math_abs() {
    let input = vec![Variant::Module(Table::new()), Variant::Integer(-1)];

    let expected = Variant::Integer(1);

    match math_abs(input) {
        Ok(Some(v)) => assert_eq!(v, expected),
        _ => assert!(false),
    }
}

#[test]
fn math_rejects_non_integers() {
    assert_eq!(
        math_max(vec![Variant::Null, Variant::Bool(true), Variant::Integer(2)]),
        Err(RuntimeError::UnknownNativeParameterToken)
    );
    assert_eq!(math_abs(vec![Variant::Null, text("x")]), Err(RuntimeError::UnknownNativeParameterToken));
    assert_eq!(
        math_min(vec![Variant::Null, Variant::Integer(-5), Variant::Integer(-5)]),
        Ok(Some(Variant::Integer(-5)))
    );
}

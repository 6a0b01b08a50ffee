use vstd::prelude::*;

use crate::table::Table;
use crate::variant::{Variant, CLASS_CONSTRUCTOR_NAME, INTERNAL_CLASS_VALUE};
use crate::vm::{NativeFunction, Thread};

verus! {

/// `t` calls `f` under the name `name`.
pub open spec fn registered(t: Thread, name: Seq<char>, f: NativeFunction) -> bool {
    t.spec_natives().spec_get(name) == Some(f)
}

/// Member `key` of `members` refers to the native function `name`.
pub open spec fn refers(members: Table<Variant>, key: Seq<char>, name: Seq<char>) -> bool {
    members.spec_get(key) matches Some(Variant::NativeFunctionRef(n)) && n@ == name
}

/// The class `name` is a global of `t` with an empty internal value of
/// kind `internal`, its members being that value and the given methods.
pub open spec fn native_class(t: Thread, name: Seq<char>, c: Table<Variant>, methods: nat) -> bool {
    &&& t.spec_program().globals.spec_get(name) == Some(Variant::Class(c))
    &&& c.spec_len() == methods + 1
}

/// The functions of `Math` are registered under their names, and the
/// module `Math` is a global whose members refer to them.
pub open spec fn math_module_in(t: Thread) -> bool {
    &&& registered(t, "std_math_max"@, NativeFunction::MathMax)
    &&& registered(t, "std_math_min"@, NativeFunction::MathMin)
    &&& registered(t, "std_math_sqrt"@, NativeFunction::Host)
    &&& registered(t, "std_math_abs"@, NativeFunction::MathAbs)
    &&& t.spec_program().globals.spec_get("Math"@) matches Some(Variant::Module(m)) && {
        &&& m.spec_len() == 4
        &&& refers(m, "min"@, "std_math_min"@)
        &&& refers(m, "max"@, "std_math_max"@)
        &&& refers(m, "sqrt"@, "std_math_sqrt"@)
        &&& refers(m, "abs"@, "std_math_abs"@)
    }
}

/// The methods of `Dictionary` are registered under their names, and the
/// class `Dictionary` is a global whose members refer to them.
pub open spec fn dictionary_class_in(t: Thread) -> bool {
    &&& registered(t, "std_dictionary_constructor"@, NativeFunction::DictionaryConstructor)
    &&& registered(t, "std_dictionary_get"@, NativeFunction::DictionaryGet)
    &&& registered(t, "std_dictionary_set"@, NativeFunction::DictionarySet)
    &&& registered(t, "std_dictionary_length"@, NativeFunction::DictionaryLength)
    &&& registered(t, "std_dictionary_remove"@, NativeFunction::DictionaryRemove)
    &&& registered(t, "std_dictionary_clear"@, NativeFunction::DictionaryClear)
    &&& registered(t, "std_dictionary_keys"@, NativeFunction::DictionaryKeys)
    &&& registered(t, "std_dictionary_values"@, NativeFunction::DictionaryValues)
    &&& registered(t, "std_dictionary_contains_key"@, NativeFunction::DictionaryContainsKey)
    &&& t.spec_program().globals.spec_get("Dictionary"@) matches Some(Variant::Class(c)) && {
        &&& c.spec_len() == 10
        &&& c.spec_get(INTERNAL_CLASS_VALUE@) matches Some(Variant::Dict(m)) && m.spec_len() == 0
        &&& refers(c, CLASS_CONSTRUCTOR_NAME@, "std_dictionary_constructor"@)
        &&& refers(c, "get"@, "std_dictionary_get"@)
        &&& refers(c, "set"@, "std_dictionary_set"@)
        &&& refers(c, "length"@, "std_dictionary_length"@)
        &&& refers(c, "remove"@, "std_dictionary_remove"@)
        &&& refers(c, "clear"@, "std_dictionary_clear"@)
        &&& refers(c, "keys"@, "std_dictionary_keys"@)
        &&& refers(c, "values"@, "std_dictionary_values"@)
        &&& refers(c, "contains_key"@, "std_dictionary_contains_key"@)
    }
}

/// A class for native methods: its internal value starts as an empty
/// dictionary.
fn generic_native_class() -> (r: Table<Variant>)
    ensures
        r.spec_len() == 1,
        r.spec_get(INTERNAL_CLASS_VALUE@) matches Some(Variant::Dict(m)) && m.spec_len() == 0,
        forall|k: Seq<char>| k != INTERNAL_CLASS_VALUE@ ==> #[trigger] r.spec_get(k) is None,
{
    let mut class = Table::new();
    class.insert(INTERNAL_CLASS_VALUE.to_owned(), Variant::Dict(Table::new()));
    class
}

/// Adds a member referring to the native function `name`.
fn add_method(class: &mut Table<Variant>, key: &str, name: &str)
    ensures
        refers(*final(class), key@, name@),
        forall|k: Seq<char>| k != key@ ==> #[trigger] final(class).spec_get(k) == old(class).spec_get(k),
        old(class).spec_get(key@) is Some ==> final(class).spec_len() == old(class).spec_len(),
        old(class).spec_get(key@) is None ==> final(class).spec_len() == old(class).spec_len() + 1,
{
    class.insert(key.to_owned(), Variant::NativeFunctionRef(name.to_owned()));
}

/// Registers the native methods of `Dictionary` and adds the class as a
/// global.
pub fn compile_dictionary_class(t: &mut Thread)
    ensures
        dictionary_class_in(*final(t)),
        final(t).spec_program().instructions == old(t).spec_program().instructions,
        forall|k: Seq<char>| k != "Dictionary"@ ==> #[trigger] final(t).spec_program().globals.spec_get(k) == old(t).spec_program().globals.spec_get(k),
        forall|k: Seq<char>| k != "std_dictionary_constructor"@ && k != "std_dictionary_get"@ && k != "std_dictionary_set"@ && k != "std_dictionary_length"@ && k != "std_dictionary_remove"@ && k != "std_dictionary_clear"@ && k != "std_dictionary_keys"@ && k != "std_dictionary_values"@ && k != "std_dictionary_contains_key"@ ==> #[trigger] final(t).spec_natives().spec_get(k) == old(t).spec_natives().spec_get(k),
        final(t).spec_trace_enabled() == old(t).spec_trace_enabled(),
{
    proof {
        reveal_strlit("std_dictionary_constructor");
        reveal_strlit("std_dictionary_get");
        reveal_strlit("std_dictionary_set");
        reveal_strlit("std_dictionary_length");
        reveal_strlit("std_dictionary_remove");
        reveal_strlit("std_dictionary_clear");
        reveal_strlit("std_dictionary_keys");
        reveal_strlit("std_dictionary_values");
        reveal_strlit("std_dictionary_contains_key");
        reveal_strlit("constructor");
        reveal_strlit("#value");
        assert(INTERNAL_CLASS_VALUE@ == "#value"@);
        assert(CLASS_CONSTRUCTOR_NAME@ == "constructor"@);
        reveal_strlit("get");
        reveal_strlit("set");
        reveal_strlit("length");
        reveal_strlit("remove");
        reveal_strlit("clear");
        reveal_strlit("keys");
        reveal_strlit("values");
        reveal_strlit("contains_key");
        assert("std_dictionary_constructor"@.len() == 26);
        assert("std_dictionary_get"@.len() == 18);
        assert("std_dictionary_set"@.len() == 18);
        assert("std_dictionary_length"@.len() == 21);
        assert("std_dictionary_remove"@.len() == 21);
        assert("std_dictionary_clear"@.len() == 20);
        assert("std_dictionary_keys"@.len() == 19);
        assert("std_dictionary_values"@.len() == 21);
        assert("std_dictionary_contains_key"@.len() == 27);
        assert("std_dictionary_constructor"@ != "std_dictionary_get"@);
        assert("std_dictionary_constructor"@ != "std_dictionary_set"@);
        assert("std_dictionary_constructor"@ != "std_dictionary_length"@);
        assert("std_dictionary_constructor"@ != "std_dictionary_remove"@);
        assert("std_dictionary_constructor"@ != "std_dictionary_clear"@);
        assert("std_dictionary_constructor"@ != "std_dictionary_keys"@);
        assert("std_dictionary_constructor"@ != "std_dictionary_values"@);
        assert("std_dictionary_constructor"@ != "std_dictionary_contains_key"@);
        assert("std_dictionary_get"@[15] != "std_dictionary_set"@[15]);
        assert("std_dictionary_get"@ != "std_dictionary_set"@);
        assert("std_dictionary_get"@ != "std_dictionary_length"@);
        assert("std_dictionary_get"@ != "std_dictionary_remove"@);
        assert("std_dictionary_get"@ != "std_dictionary_clear"@);
        assert("std_dictionary_get"@ != "std_dictionary_keys"@);
        assert("std_dictionary_get"@ != "std_dictionary_values"@);
        assert("std_dictionary_get"@ != "std_dictionary_contains_key"@);
        assert("std_dictionary_set"@ != "std_dictionary_length"@);
        assert("std_dictionary_set"@ != "std_dictionary_remove"@);
        assert("std_dictionary_set"@ != "std_dictionary_clear"@);
        assert("std_dictionary_set"@ != "std_dictionary_keys"@);
        assert("std_dictionary_set"@ != "std_dictionary_values"@);
        assert("std_dictionary_set"@ != "std_dictionary_contains_key"@);
        assert("std_dictionary_length"@[15] != "std_dictionary_remove"@[15]);
        assert("std_dictionary_length"@ != "std_dictionary_remove"@);
        assert("std_dictionary_length"@ != "std_dictionary_clear"@);
        assert("std_dictionary_length"@ != "std_dictionary_keys"@);
        assert("std_dictionary_length"@[15] != "std_dictionary_values"@[15]);
        assert("std_dictionary_length"@ != "std_dictionary_values"@);
        assert("std_dictionary_length"@ != "std_dictionary_contains_key"@);
        assert("std_dictionary_remove"@ != "std_dictionary_clear"@);
        assert("std_dictionary_remove"@ != "std_dictionary_keys"@);
        assert("std_dictionary_remove"@[15] != "std_dictionary_values"@[15]);
        assert("std_dictionary_remove"@ != "std_dictionary_values"@);
        assert("std_dictionary_remove"@ != "std_dictionary_contains_key"@);
        assert("std_dictionary_clear"@ != "std_dictionary_keys"@);
        assert("std_dictionary_clear"@ != "std_dictionary_values"@);
        assert("std_dictionary_clear"@ != "std_dictionary_contains_key"@);
        assert("std_dictionary_keys"@ != "std_dictionary_values"@);
        assert("std_dictionary_keys"@ != "std_dictionary_contains_key"@);
        assert("std_dictionary_values"@ != "std_dictionary_contains_key"@);
        assert("constructor"@.len() == 11);
        assert("#value"@.len() == 6);
        assert("get"@.len() == 3);
        assert("set"@.len() == 3);
        assert("length"@.len() == 6);
        assert("remove"@.len() == 6);
        assert("clear"@.len() == 5);
        assert("keys"@.len() == 4);
        assert("values"@.len() == 6);
        assert("contains_key"@.len() == 12);
        assert("constructor"@ != "#value"@);
        assert("constructor"@ != "get"@);
        assert("constructor"@ != "set"@);
        assert("constructor"@ != "length"@);
        assert("constructor"@ != "remove"@);
        assert("constructor"@ != "clear"@);
        assert("constructor"@ != "keys"@);
        assert("constructor"@ != "values"@);
        assert("constructor"@ != "contains_key"@);
        assert("#value"@ != "get"@);
        assert("#value"@ != "set"@);
        assert("#value"@[0] != "length"@[0]);
        assert("#value"@ != "length"@);
        assert("#value"@[0] != "remove"@[0]);
        assert("#value"@ != "remove"@);
        assert("#value"@ != "clear"@);
        assert("#value"@ != "keys"@);
        assert("#value"@[0] != "values"@[0]);
        assert("#value"@ != "values"@);
        assert("#value"@ != "contains_key"@);
        assert("get"@[0] != "set"@[0]);
        assert("get"@ != "set"@);
        assert("get"@ != "length"@);
        assert("get"@ != "remove"@);
        assert("get"@ != "clear"@);
        assert("get"@ != "keys"@);
        assert("get"@ != "values"@);
        assert("get"@ != "contains_key"@);
        assert("set"@ != "length"@);
        assert("set"@ != "remove"@);
        assert("set"@ != "clear"@);
        assert("set"@ != "keys"@);
        assert("set"@ != "values"@);
        assert("set"@ != "contains_key"@);
        assert("length"@[0] != "remove"@[0]);
        assert("length"@ != "remove"@);
        assert("length"@ != "clear"@);
        assert("length"@ != "keys"@);
        assert("length"@[0] != "values"@[0]);
        assert("length"@ != "values"@);
        assert("length"@ != "contains_key"@);
        assert("remove"@ != "clear"@);
        assert("remove"@ != "keys"@);
        assert("remove"@[0] != "values"@[0]);
        assert("remove"@ != "values"@);
        assert("remove"@ != "contains_key"@);
        assert("clear"@ != "keys"@);
        assert("clear"@ != "values"@);
        assert("clear"@ != "contains_key"@);
        assert("keys"@ != "values"@);
        assert("keys"@ != "contains_key"@);
        assert("values"@ != "contains_key"@);
    }
    t.add_native_function("std_dictionary_constructor", NativeFunction::DictionaryConstructor);
    t.add_native_function("std_dictionary_get", NativeFunction::DictionaryGet);
    t.add_native_function("std_dictionary_set", NativeFunction::DictionarySet);
    t.add_native_function("std_dictionary_length", NativeFunction::DictionaryLength);
    t.add_native_function("std_dictionary_remove", NativeFunction::DictionaryRemove);
    t.add_native_function("std_dictionary_clear", NativeFunction::DictionaryClear);
    t.add_native_function("std_dictionary_keys", NativeFunction::DictionaryKeys);
    t.add_native_function("std_dictionary_values", NativeFunction::DictionaryValues);
    t.add_native_function("std_dictionary_contains_key", NativeFunction::DictionaryContainsKey);

    let mut class = generic_native_class();
    add_method(&mut class, CLASS_CONSTRUCTOR_NAME, "std_dictionary_constructor");
    add_method(&mut class, "get", "std_dictionary_get");
    add_method(&mut class, "set", "std_dictionary_set");
    add_method(&mut class, "length", "std_dictionary_length");
    add_method(&mut class, "remove", "std_dictionary_remove");
    add_method(&mut class, "clear", "std_dictionary_clear");
    add_method(&mut class, "keys", "std_dictionary_keys");
    add_method(&mut class, "values", "std_dictionary_values");
    add_method(&mut class, "contains_key", "std_dictionary_contains_key");
    t.add_global("Dictionary", Variant::Class(class));
}

/// Registers the native methods of `String` and adds the class as a global.
pub fn compile_string_class(t: &mut Thread)
    ensures
        registered(*final(t), "std_string_constructor"@, NativeFunction::StringConstructor),
        registered(*final(t), "std_string_length"@, NativeFunction::StringLength),
        final(t).spec_program().instructions == old(t).spec_program().instructions,
        final(t).spec_program().globals.spec_get("String"@) matches Some(Variant::Class(c)) && {
            &&& c.spec_len() == 3
            &&& c.spec_get(INTERNAL_CLASS_VALUE@) matches Some(Variant::Dict(m)) && m.spec_len() == 0
            &&& refers(c, CLASS_CONSTRUCTOR_NAME@, "std_string_constructor"@)
            &&& refers(c, "length"@, "std_string_length"@)
        },        forall|k: Seq<char>| k != "String"@ ==> #[trigger] final(t).spec_program().globals.spec_get(k) == old(t).spec_program().globals.spec_get(k),
        forall|k: Seq<char>| k != "std_string_constructor"@ && k != "std_string_length"@ ==> #[trigger] final(t).spec_natives().spec_get(k) == old(t).spec_natives().spec_get(k),
        final(t).spec_trace_enabled() == old(t).spec_trace_enabled(),
{
    proof {
        reveal_strlit("std_string_constructor");
        reveal_strlit("std_string_length");
        reveal_strlit("constructor");
        reveal_strlit("#value");
        assert(INTERNAL_CLASS_VALUE@ == "#value"@);
        assert(CLASS_CONSTRUCTOR_NAME@ == "constructor"@);
        reveal_strlit("length");
        assert("std_string_constructor"@.len() == 22);
        assert("std_string_length"@.len() == 17);
        assert("std_string_constructor"@ != "std_string_length"@);
        assert("#value"@.len() == 6);
        assert("constructor"@.len() == 11);
        assert("length"@.len() == 6);
        assert("#value"@ != "constructor"@);
        assert("#value"@[0] != "length"@[0]);
        assert("#value"@ != "length"@);
        assert("constructor"@ != "length"@);
    }
    t.add_native_function("std_string_constructor", NativeFunction::StringConstructor);
    t.add_native_function("std_string_length", NativeFunction::StringLength);

    let mut class = generic_native_class();
    add_method(&mut class, CLASS_CONSTRUCTOR_NAME, "std_string_constructor");
    add_method(&mut class, "length", "std_string_length");
    t.add_global("String", Variant::Class(class));
}

/// Registers the native functions of `Math` and adds the module as a global.
/// `sqrt` works on floating-point numbers and is left to the host.
pub fn compile_math_module(t: &mut Thread)
    ensures
        math_module_in(*final(t)),
        final(t).spec_program().instructions == old(t).spec_program().instructions,
        forall|k: Seq<char>| k != "Math"@ ==> #[trigger] final(t).spec_program().globals.spec_get(k) == old(t).spec_program().globals.spec_get(k),
        forall|k: Seq<char>| k != "std_math_max"@ && k != "std_math_min"@ && k != "std_math_sqrt"@ && k != "std_math_abs"@ ==> #[trigger] final(t).spec_natives().spec_get(k) == old(t).spec_natives().spec_get(k),
        final(t).spec_trace_enabled() == old(t).spec_trace_enabled(),
{
    proof {
        reveal_strlit("std_math_max");
        reveal_strlit("std_math_min");
        reveal_strlit("std_math_sqrt");
        reveal_strlit("std_math_abs");
        reveal_strlit("min");
        reveal_strlit("max");
        reveal_strlit("sqrt");
        reveal_strlit("abs");
        assert("std_math_max"@.len() == 12);
        assert("std_math_min"@.len() == 12);
        assert("std_math_sqrt"@.len() == 13);
        assert("std_math_abs"@.len() == 12);
        assert("std_math_max"@[10] != "std_math_min"@[10]);
        assert("std_math_max"@ != "std_math_min"@);
        assert("std_math_max"@ != "std_math_sqrt"@);
        assert("std_math_max"@[9] != "std_math_abs"@[9]);
        assert("std_math_max"@ != "std_math_abs"@);
        assert("std_math_min"@ != "std_math_sqrt"@);
        assert("std_math_min"@[9] != "std_math_abs"@[9]);
        assert("std_math_min"@ != "std_math_abs"@);
        assert("std_math_sqrt"@ != "std_math_abs"@);
        assert("min"@.len() == 3);
        assert("max"@.len() == 3);
        assert("sqrt"@.len() == 4);
        assert("abs"@.len() == 3);
        assert("min"@[1] != "max"@[1]);
        assert("min"@ != "max"@);
        assert("min"@ != "sqrt"@);
        assert("min"@[0] != "abs"@[0]);
        assert("min"@ != "abs"@);
        assert("max"@ != "sqrt"@);
        assert("max"@[0] != "abs"@[0]);
        assert("max"@ != "abs"@);
        assert("sqrt"@ != "abs"@);
    }
    t.add_native_function("std_math_max", NativeFunction::MathMax);
    t.add_native_function("std_math_min", NativeFunction::MathMin);
    t.add_native_function("std_math_sqrt", NativeFunction::Host);
    t.add_native_function("std_math_abs", NativeFunction::MathAbs);

    let mut module = Table::new();
    add_method(&mut module, "min", "std_math_min");
    add_method(&mut module, "max", "std_math_max");
    add_method(&mut module, "sqrt", "std_math_sqrt");
    add_method(&mut module, "abs", "std_math_abs");
    t.add_global("Math", Variant::Module(module));
}

} // verus!

use vstd::prelude::*;

use crate::error::RuntimeError;
use crate::variant::{same_value, Variant, DEPTH};

verus! {

/// A class whose methods are written in Rust: it is built from the
/// constructor's arguments and answers method calls by name.
pub trait NativeClass: Sized {
    /// The calls that `call` is defined for.
    spec fn accepts(&self, name: Seq<char>, params: Seq<Variant>) -> bool;

    fn constructor(&self, params: Vec<Variant>) -> Result<Self, RuntimeError>;

    fn call(&self, name: &str, params: Vec<Variant>) -> Result<Option<Box<Variant>>, RuntimeError>
        requires
            self.accepts(name@, params@),
    ;
}

/// A native class that keeps its constructor's arguments and hands them back
/// by position.
#[derive(Debug, PartialEq)]
pub struct MyClass {
    value: Vec<Variant>,
}

impl MyClass {
    pub closed spec fn spec_value(&self) -> Seq<Variant> {
        self.value@
    }

    pub fn new() -> (r: Self)
        ensures
            r.spec_value().len() == 0,
    {
        MyClass { value: Vec::new() }
    }
}

impl NativeClass for MyClass {
    /// `get_value` with the position of a kept argument.
    open spec fn accepts(&self, name: Seq<char>, params: Seq<Variant>) -> bool {
        &&& name == "get_value"@
        &&& params.len() > 0
        &&& params[0] matches Variant::Integer(i) && 0 <= i < self.spec_value().len()
    }

    fn constructor(&self, params: Vec<Variant>) -> (r: Result<Self, RuntimeError>)
        ensures
            r matches Ok(c) && c.spec_value() == params@,
    {
        Ok(MyClass { value: params })
    }

    fn call(&self, name: &str, params: Vec<Variant>) -> (r: Result<Option<Box<Variant>>, RuntimeError>)
        ensures
            params@[0] matches Variant::Integer(i) && (r matches Ok(Some(v)) && same_value(self.spec_value()[i as int], *v, DEPTH as nat)),
    {
        let count = self.value.len();
        let index = match &params[0] {
            Variant::Integer(i) => *i as usize,
            _ => 0,
        };
        proof {
            assert(params@[0] matches Variant::Integer(i) && 0 <= i < count && index as int == i);
        }
        Ok(Some(Box::new(self.value[index].copy())))
    }
}

} // verus!

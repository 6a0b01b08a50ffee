use vstd::prelude::*;

use crate::error::RuntimeError;
use crate::table::Table;
use crate::variant::{same_value, Heap, Variant, DEPTH, INTERNAL_CLASS_VALUE};

verus! {

/// Position of the object a native method is called on.
pub const PARAM_0: usize = 0;

/// Position of the first argument of a native method.
pub const PARAM_1: usize = 1;

/// Position of the second argument of a native method.
pub const PARAM_2: usize = 2;

/// The object a native method is called on: the first argument.
pub open spec fn self_id(p: Seq<Variant>) -> Option<usize> {
    if p.len() > 0 {
        match p[0] {
            Variant::Object(id) => Some(id),
            _ => None,
        }
    } else {
        None
    }
}

/// A member of object `id`, when there is such an object.
pub open spec fn member(heap: Heap, id: usize, key: Seq<char>) -> Option<Variant> {
    if id < heap.spec_objects().len() {
        heap.spec_objects()[id as int].spec_get(key)
    } else {
        None
    }
}

/// The internal value of the object that a native method is called on.
pub open spec fn internal_value(heap: Heap, p: Seq<Variant>) -> Option<Variant> {
    match self_id(p) {
        Some(id) => member(heap, id, INTERNAL_CLASS_VALUE@),
        None => None,
    }
}

/// The dictionary held by the object that a native method is called on.
pub open spec fn dict_of(heap: Heap, p: Seq<Variant>) -> Option<Table<Variant>> {
    match internal_value(heap, p) {
        Some(Variant::Dict(m)) => Some(m),
        _ => None,
    }
}

/// Argument `i` when it is a text.
pub open spec fn text_param(p: Seq<Variant>, i: int) -> Option<Seq<char>> {
    if 0 <= i < p.len() {
        match p[i] {
            Variant::String(s) => Some(s@),
            _ => None,
        }
    } else {
        None
    }
}

/// `new` is `old` where only the internal value of object `id` may differ.
pub open spec fn only_internal_changed(old: Heap, new: Heap, id: usize) -> bool {
    &&& id < old.spec_objects().len()
    &&& new.spec_objects().len() == old.spec_objects().len()
    &&& forall|j: int| 0 <= j < old.spec_objects().len() && j != id ==> #[trigger] new.spec_objects()[j] == old.spec_objects()[j]
    &&& forall|k: Seq<char>| k != INTERNAL_CLASS_VALUE@ ==> #[trigger] new.spec_objects()[id as int].spec_get(k) == old.spec_objects()[id as int].spec_get(k)
}

/// The error of a native function that finds no dictionary behind `self`.
pub open spec fn no_object_value(e: RuntimeError) -> bool {
    e matches RuntimeError::InvalidNativeFunction(s) && s@ == "get object value"@
}

/// A copy of argument `i`.
pub fn get_parameter(p: &Vec<Variant>, i: usize) -> (r: Result<Variant, RuntimeError>)
    ensures
        match r {
            Ok(v) => i < p@.len() && same_value(p@[i as int], v, DEPTH as nat),
            Err(e) => i >= p@.len() && e == RuntimeError::UnknownNativeParameterToken,
        },
{
    if i < p.len() {
        Ok(p[i].copy())
    } else {
        Err(RuntimeError::UnknownNativeParameterToken)
    }
}

/// The text in argument `i`; the error of a missing or other argument.
fn text_parameter(p: &Vec<Variant>, i: usize) -> (r: Result<String, RuntimeError>)
    ensures
        match r {
            Ok(s) => text_param(p@, i as int) == Some(s@),
            Err(e) => text_param(p@, i as int) is None && e == RuntimeError::UnknownNativeParameterToken,
        },
{
    if i < p.len() {
        match &p[i] {
            Variant::String(s) => Ok(s.clone()),
            _ => Err(RuntimeError::UnknownNativeParameterToken),
        }
    } else {
        Err(RuntimeError::UnknownNativeParameterToken)
    }
}

/// The dictionary held by the object in the first argument.
pub fn get_object_value<'a>(heap: &'a Heap, p: &Vec<Variant>) -> (r: Result<&'a Table<Variant>, RuntimeError>)
    requires
        p@.len() > 0,
    ensures
        match r {
            Ok(m) => dict_of(*heap, p@) == Some(*m),
            Err(e) => dict_of(*heap, p@) is None && no_object_value(e),
        },
{
    if let Variant::Object(id) = &p[PARAM_0] {
        if let Some(object) = heap.get(*id) {
            if let Some(Variant::Dict(m)) = object.get(INTERNAL_CLASS_VALUE) {
                return Ok(m);
            }
        }
    }
    Err(RuntimeError::InvalidNativeFunction("get object value".to_owned()))
}

/// Takes the dictionary out of object `id`, leaving `Null` in its place.
fn take_dict(heap: &mut Heap, id: usize) -> (r: Table<Variant>)
    requires
        member(*old(heap), id, INTERNAL_CLASS_VALUE@) matches Some(Variant::Dict(m)),
    ensures
        member(*old(heap), id, INTERNAL_CLASS_VALUE@) == Some(Variant::Dict(r)),
        only_internal_changed(*old(heap), *final(heap), id),
        member(*final(heap), id, INTERNAL_CLASS_VALUE@) == Some(Variant::Null),
{
    match heap.replace_member(id, INTERNAL_CLASS_VALUE, Variant::Null) {
        Some(Variant::Dict(m)) => m,
        _ => Table::new(),
    }
}

/// Puts a dictionary back into object `id`.
fn put_dict(heap: &mut Heap, id: usize, m: Table<Variant>)
    requires
        member(*old(heap), id, INTERNAL_CLASS_VALUE@) is Some,
    ensures
        only_internal_changed(*old(heap), *final(heap), id),
        member(*final(heap), id, INTERNAL_CLASS_VALUE@) == Some(Variant::Dict(m)),
{
    heap.replace_member(id, INTERNAL_CLASS_VALUE, Variant::Dict(m));
}

/// What `dict_constructor` returns and does.
pub open spec fn dict_constructor_post(h0: Heap, h1: Heap, p: Seq<Variant>, r: Result<Option<Variant>, RuntimeError>) -> bool {
    &&& match self_id(p) {
        None => h1 == h0 && (r matches Err(RuntimeError::InvalidNativeFunction(s)) && s@ == "self"@),
        Some(id) => {
            &&& r == Ok::<Option<Variant>, RuntimeError>(Some(Variant::Object(id)))
            &&& if p.len() > 1 && p[1] is Dict && id < h0.spec_objects().len() {
                &&& only_internal_changed(h0, h1, id)
                &&& member(h1, id, INTERNAL_CLASS_VALUE@) == Some(p[1])
            } else {
                h1 == h0
            }
        },
    }
}

/// `Dictionary.constructor`: gives the object its initial dictionary when
/// one is passed, and returns the object.
pub fn dict_constructor(heap: &mut Heap, p: Vec<Variant>) -> (r: Result<Option<Variant>, RuntimeError>)
    ensures
        dict_constructor_post(*old(heap), *final(heap), p@, r),
{
    let id = match p.get(PARAM_0) {
        Some(Variant::Object(id)) => *id,
        _ => return Err(RuntimeError::InvalidNativeFunction("self".to_owned())),
    };
    if p.len() > 1 {
        let mut p = p;
        let initial = p.remove(PARAM_1);
        if let Variant::Dict(_) = &initial {
            if id < heap.len() {
                heap.set_member(id, INTERNAL_CLASS_VALUE.to_owned(), initial);
            }
        }
    }
    Ok(Some(Variant::Object(id)))
}

/// What `dict_contains_key` returns.
pub open spec fn dict_contains_key_post(h0: Heap, h1: Heap, p: Seq<Variant>, r: Result<Option<Variant>, RuntimeError>) -> bool {
    &&& match text_param(p, 1) {
        None => r == Err::<Option<Variant>, RuntimeError>(RuntimeError::UnknownNativeParameterToken),
        Some(k) => match dict_of(h0, p) {
            None => r matches Err(e) && no_object_value(e),
            Some(m) => r == Ok::<Option<Variant>, RuntimeError>(Some(Variant::Bool(m.spec_contains(k)))),
        },
    }
}

/// `Dictionary.contains_key`: whether the dictionary has the given key.
pub fn dict_contains_key(heap: &Heap, p: Vec<Variant>) -> (r: Result<Option<Variant>, RuntimeError>)
    ensures
        dict_contains_key_post(*heap, *heap, p@, r),
{
    let key = match text_parameter(&p, PARAM_1) {
        Ok(k) => k,
        Err(e) => return Err(e),
    };
    let m = match get_object_value(heap, &p) {
        Ok(m) => m,
        Err(e) => return Err(e),
    };
    Ok(Some(Variant::Bool(m.contains_key(key.as_str()))))
}

/// The calls on which `dict_keys` is defined.
pub open spec fn dict_keys_accepts(h0: Heap, p: Seq<Variant>) -> bool {
    &&& p.len() > 0
}

/// What `dict_keys` returns.
pub open spec fn dict_keys_post(h0: Heap, h1: Heap, p: Seq<Variant>, r: Result<Option<Variant>, RuntimeError>) -> bool {
    &&& match dict_of(h0, p) {
        None => r matches Err(e) && no_object_value(e),
        Some(m) => r matches Ok(Some(Variant::Array(keys))) && {
            &&& keys@.len() == m.spec_len()
            &&& forall|i: int| 0 <= i < keys@.len() ==> (#[trigger] keys@[i] matches Variant::String(s) && s@ == m.spec_entries()[i].0@)
        },
    }
}

/// `Dictionary.keys`: the keys, as texts, in the dictionary's order.
pub fn dict_keys(heap: &Heap, p: Vec<Variant>) -> (r: Result<Option<Variant>, RuntimeError>)
    requires
        dict_keys_accepts(*heap, p@),
    ensures
        dict_keys_post(*heap, *heap, p@, r),
{
    let m = match get_object_value(heap, &p) {
        Ok(m) => m,
        Err(e) => return Err(e),
    };
    let mut keys: Vec<Variant> = Vec::new();
    let mut i: usize = 0;
    while i < m.len()
        invariant
            i <= m.spec_len(),
            keys@.len() == i,
            forall|j: int| 0 <= j < i ==> (#[trigger] keys@[j] matches Variant::String(s) && s@ == m.spec_entries()[j].0@),
        decreases m.spec_len() - i,
    {
        keys.push(Variant::String(m.key_at(i).clone()));
        i = i + 1;
    }
    Ok(Some(Variant::Array(keys)))
}

/// The calls on which `dict_values` is defined.
pub open spec fn dict_values_accepts(h0: Heap, p: Seq<Variant>) -> bool {
    &&& p.len() > 0
}

/// What `dict_values` returns.
pub open spec fn dict_values_post(h0: Heap, h1: Heap, p: Seq<Variant>, r: Result<Option<Variant>, RuntimeError>) -> bool {
    &&& match dict_of(h0, p) {
        None => r matches Err(e) && no_object_value(e),
        Some(m) => r matches Ok(Some(Variant::Array(values))) && {
            &&& values@.len() == m.spec_len()
            &&& forall|i: int| 0 <= i < values@.len() ==> same_value(m.spec_entries()[i].1, #[trigger] values@[i], DEPTH as nat)
        },
    }
}

/// `Dictionary.values`: copies of the values, in the dictionary's order.
pub fn dict_values(heap: &Heap, p: Vec<Variant>) -> (r: Result<Option<Variant>, RuntimeError>)
    requires
        dict_values_accepts(*heap, p@),
    ensures
        dict_values_post(*heap, *heap, p@, r),
{
    let m = match get_object_value(heap, &p) {
        Ok(m) => m,
        Err(e) => return Err(e),
    };
    let mut values: Vec<Variant> = Vec::new();
    let mut i: usize = 0;
    while i < m.len()
        invariant
            i <= m.spec_len(),
            values@.len() == i,
            forall|j: int| 0 <= j < i ==> same_value(m.spec_entries()[j].1, #[trigger] values@[j], DEPTH as nat),
        decreases m.spec_len() - i,
    {
        values.push(m.value_at(i).copy());
        i = i + 1;
    }
    Ok(Some(Variant::Array(values)))
}

/// What `dict_get` returns.
pub open spec fn dict_get_post(h0: Heap, h1: Heap, p: Seq<Variant>, r: Result<Option<Variant>, RuntimeError>) -> bool {
    &&& match text_param(p, 1) {
        None => r == Err::<Option<Variant>, RuntimeError>(RuntimeError::UnknownNativeParameterToken),
        Some(k) => match dict_of(h0, p) {
            None => r matches Err(e) && no_object_value(e),
            Some(m) => match m.spec_get(k) {
                Some(v) => r matches Ok(Some(w)) && same_value(v, w, DEPTH as nat),
                None => r matches Err(RuntimeError::InvalidNativeFunction(s)) && s@ == "Dictionary.get"@,
            },
        },
    }
}

/// `Dictionary.get`: a copy of the value under the given key; an error when
/// there is none.
pub fn dict_get(heap: &Heap, p: Vec<Variant>) -> (r: Result<Option<Variant>, RuntimeError>)
    ensures
        dict_get_post(*heap, *heap, p@, r),
{
    let key = match text_parameter(&p, PARAM_1) {
        Ok(k) => k,
        Err(e) => return Err(e),
    };
    let m = match get_object_value(heap, &p) {
        Ok(m) => m,
        Err(e) => return Err(e),
    };
    match m.get(key.as_str()) {
        Some(v) => Ok(Some(v.copy())),
        None => Err(RuntimeError::InvalidNativeFunction("Dictionary.get".to_owned())),
    }
}

/// What `dict_set` returns and does.
pub open spec fn dict_set_post(h0: Heap, h1: Heap, p: Seq<Variant>, r: Result<Option<Variant>, RuntimeError>) -> bool {
    &&& match text_param(p, 1) {
        None => h1 == h0 && r == Err::<Option<Variant>, RuntimeError>(RuntimeError::UnknownNativeParameterToken),
        Some(k) => if p.len() <= 2 {
            h1 == h0 && r == Err::<Option<Variant>, RuntimeError>(RuntimeError::UnknownNativeParameterToken)
        } else {
            match dict_of(h0, p) {
                None => h1 == h0 && (r matches Err(e) && no_object_value(e)),
                Some(m) => {
                    &&& r == Ok::<Option<Variant>, RuntimeError>(None)
                    &&& only_internal_changed(h0, h1, self_id(p)->0)
                    &&& dict_of(h1, p) matches Some(m2) && {
                        &&& m2.spec_get(k) matches Some(v) && same_value(p[2], v, DEPTH as nat)
                        &&& forall|k2: Seq<char>| k2 != k ==> #[trigger] m2.spec_get(k2) == m.spec_get(k2)
                    }
                },
            }
        },
    }
}

/// `Dictionary.set`: stores a copy of the value under the given key.
pub fn dict_set(heap: &mut Heap, p: Vec<Variant>) -> (r: Result<Option<Variant>, RuntimeError>)
    ensures
        dict_set_post(*old(heap), *final(heap), p@, r),
{
    let key = match text_parameter(&p, PARAM_1) {
        Ok(k) => k,
        Err(e) => return Err(e),
    };
    let value = match get_parameter(&p, PARAM_2) {
        Ok(v) => v,
        Err(e) => return Err(e),
    };
    if let Err(e) = get_object_value(heap, &p) {
        return Err(e);
    }
    let id = match &p[PARAM_0] {
        Variant::Object(id) => *id,
        _ => return Ok(None),
    };
    let ghost before = *heap;
    let mut m = take_dict(heap, id);
    m.insert(key, value);
    let ghost middle = *heap;
    put_dict(heap, id, m);
    proof {
        assert forall|k2: Seq<char>| k2 != INTERNAL_CLASS_VALUE@ implies #[trigger] heap.spec_objects()[id as int].spec_get(k2) == before.spec_objects()[id as int].spec_get(k2) by {
            assert(heap.spec_objects()[id as int].spec_get(k2) == middle.spec_objects()[id as int].spec_get(k2));
        }
    }
    Ok(None)
}

/// The calls on which `dict_length` is defined.
pub open spec fn dict_length_accepts(h0: Heap, p: Seq<Variant>) -> bool {
    &&& p.len() > 0
}

/// What `dict_length` returns.
pub open spec fn dict_length_post(h0: Heap, h1: Heap, p: Seq<Variant>, r: Result<Option<Variant>, RuntimeError>) -> bool {
    &&& match dict_of(h0, p) {
        None => r matches Err(e) && no_object_value(e),
        Some(m) => r == Ok::<Option<Variant>, RuntimeError>(Some(Variant::Integer(m.spec_len() as i64))),
    }
}

/// `Dictionary.length`: the number of keys.
pub fn dict_length(heap: &Heap, p: Vec<Variant>) -> (r: Result<Option<Variant>, RuntimeError>)
    requires
        dict_length_accepts(*heap, p@),
    ensures
        dict_length_post(*heap, *heap, p@, r),
{
    let m = match get_object_value(heap, &p) {
        Ok(m) => m,
        Err(e) => return Err(e),
    };
    Ok(Some(Variant::Integer(m.len() as i64)))
}

/// The calls on which `dict_remove` is defined.
pub open spec fn dict_remove_accepts(h0: Heap, p: Seq<Variant>) -> bool {
    &&& p.len() > 0
    &&& dict_of(h0, p) is Some ==> p.len() > 1
}

/// What `dict_remove` returns and does.
pub open spec fn dict_remove_post(h0: Heap, h1: Heap, p: Seq<Variant>, r: Result<Option<Variant>, RuntimeError>) -> bool {
    &&& match dict_of(h0, p) {
        None => h1 == h0 && (r matches Err(e) && no_object_value(e)),
        Some(m) => match text_param(p, 1) {
            None => h1 == h0 && r == Err::<Option<Variant>, RuntimeError>(RuntimeError::UnknownNativeParameterToken),
            Some(k) => {
                &&& r == Ok::<Option<Variant>, RuntimeError>(None)
                &&& only_internal_changed(h0, h1, self_id(p)->0)
                &&& dict_of(h1, p) matches Some(m2) && {
                    &&& m2.spec_get(k) is None
                    &&& forall|k2: Seq<char>| k2 != k ==> #[trigger] m2.spec_get(k2) == m.spec_get(k2)
                }
            },
        },
    }
}

/// `Dictionary.remove`: drops the given key.
pub fn dict_remove(heap: &mut Heap, p: Vec<Variant>) -> (r: Result<Option<Variant>, RuntimeError>)
    requires
        dict_remove_accepts(*old(heap), p@),
    ensures
        dict_remove_post(*old(heap), *final(heap), p@, r),
{
    if let Err(e) = get_object_value(heap, &p) {
        return Err(e);
    }
    let key = match text_parameter(&p, PARAM_1) {
        Ok(k) => k,
        Err(e) => return Err(e),
    };
    let id = match &p[PARAM_0] {
        Variant::Object(id) => *id,
        _ => return Ok(None),
    };
    let ghost before = *heap;
    let mut m = take_dict(heap, id);
    m.remove(key.as_str());
    let ghost middle = *heap;
    put_dict(heap, id, m);
    proof {
        assert forall|k2: Seq<char>| k2 != INTERNAL_CLASS_VALUE@ implies #[trigger] heap.spec_objects()[id as int].spec_get(k2) == before.spec_objects()[id as int].spec_get(k2) by {
            assert(heap.spec_objects()[id as int].spec_get(k2) == middle.spec_objects()[id as int].spec_get(k2));
        }
    }
    Ok(None)
}

/// The calls on which `dict_clear` is defined.
pub open spec fn dict_clear_accepts(h0: Heap, p: Seq<Variant>) -> bool {
    &&& p.len() > 0
}

/// What `dict_clear` returns and does.
pub open spec fn dict_clear_post(h0: Heap, h1: Heap, p: Seq<Variant>, r: Result<Option<Variant>, RuntimeError>) -> bool {
    &&& match dict_of(h0, p) {
        None => h1 == h0 && (r matches Err(e) && no_object_value(e)),
        Some(m) => {
            &&& r == Ok::<Option<Variant>, RuntimeError>(None)
            &&& only_internal_changed(h0, h1, self_id(p)->0)
            &&& dict_of(h1, p) matches Some(m2) && m2.spec_len() == 0
        },
    }
}

/// `Dictionary.clear`: drops every key.
pub fn dict_clear(heap: &mut Heap, p: Vec<Variant>) -> (r: Result<Option<Variant>, RuntimeError>)
    requires
        dict_clear_accepts(*old(heap), p@),
    ensures
        dict_clear_post(*old(heap), *final(heap), p@, r),
{
    if let Err(e) = get_object_value(heap, &p) {
        return Err(e);
    }
    let id = match &p[PARAM_0] {
        Variant::Object(id) => *id,
        _ => return Ok(None),
    };
    let ghost before = *heap;
    let mut m = take_dict(heap, id);
    m.clear();
    let ghost middle = *heap;
    put_dict(heap, id, m);
    proof {
        assert forall|k2: Seq<char>| k2 != INTERNAL_CLASS_VALUE@ implies #[trigger] heap.spec_objects()[id as int].spec_get(k2) == before.spec_objects()[id as int].spec_get(k2) by {
            assert(heap.spec_objects()[id as int].spec_get(k2) == middle.spec_objects()[id as int].spec_get(k2));
        }
    }
    Ok(None)
}

/// What `string_constructor` returns and does.
pub open spec fn string_constructor_post(h0: Heap, h1: Heap, p: Seq<Variant>, r: Result<Option<Variant>, RuntimeError>) -> bool {
    &&& match self_id(p) {
        None => h1 == h0 && r == Err::<Option<Variant>, RuntimeError>(RuntimeError::ExpectedSelfForNativeFunction),
        Some(id) => {
            &&& r == Ok::<Option<Variant>, RuntimeError>(Some(Variant::Object(id)))
            &&& if p.len() > 1 && p[1] is String && id < h0.spec_objects().len() {
                &&& only_internal_changed(h0, h1, id)
                &&& member(h1, id, INTERNAL_CLASS_VALUE@) == Some(p[1])
            } else {
                h1 == h0
            }
        },
    }
}

/// `String.constructor`: gives the object its initial text when one is
/// passed, and returns the object.
pub fn string_constructor(heap: &mut Heap, p: Vec<Variant>) -> (r: Result<Option<Variant>, RuntimeError>)
    ensures
        string_constructor_post(*old(heap), *final(heap), p@, r),
{
    let id = match p.get(PARAM_0) {
        Some(Variant::Object(id)) => *id,
        _ => return Err(RuntimeError::ExpectedSelfForNativeFunction),
    };
    if p.len() > 1 {
        let mut p = p;
        let initial = p.remove(PARAM_1);
        if let Variant::String(_) = &initial {
            if id < heap.len() {
                heap.set_member(id, INTERNAL_CLASS_VALUE.to_owned(), initial);
            }
        }
    }
    Ok(Some(Variant::Object(id)))
}

/// The calls on which `string_length` is defined.
pub open spec fn string_length_accepts(h0: Heap, p: Seq<Variant>) -> bool {
    &&& self_id(p) matches Some(id) ==> member(h0, id, INTERNAL_CLASS_VALUE@) is Some
}

/// What `string_length` returns.
pub open spec fn string_length_post(h0: Heap, h1: Heap, p: Seq<Variant>, r: Result<Option<Variant>, RuntimeError>) -> bool {
    &&& match self_id(p) {
        None => r == Err::<Option<Variant>, RuntimeError>(RuntimeError::ExpectedSelfForNativeFunction),
        Some(id) => match member(h0, id, INTERNAL_CLASS_VALUE@) {
            Some(Variant::String(v)) => r == Ok::<Option<Variant>, RuntimeError>(Some(Variant::Integer(vstd::utf8::encode_utf8(v@).len() as usize as i64))),
            _ => r matches Err(RuntimeError::InvalidNativeFunction(s)) && s@ == "String.length"@,
        },
    }
}

/// `String.length`: the length of the object's text in bytes.
pub fn string_length(heap: &Heap, p: Vec<Variant>) -> (r: Result<Option<Variant>, RuntimeError>)
    requires
        string_length_accepts(*heap, p@),
    ensures
        string_length_post(*heap, *heap, p@, r),
{
    let id = match p.get(PARAM_0) {
        Some(Variant::Object(id)) => *id,
        _ => return Err(RuntimeError::ExpectedSelfForNativeFunction),
    };
    if let Some(object) = heap.get(id) {
        if let Some(Variant::String(v)) = object.get(INTERNAL_CLASS_VALUE) {
            return Ok(Some(Variant::Integer(v.as_str().len() as i64)));
        }
    }
    Err(RuntimeError::InvalidNativeFunction("String.length".to_owned()))
}

/// The two integer arguments of a binary `Math` function.
pub open spec fn int_pair(p: Seq<Variant>) -> Option<(i64, i64)> {
    match (p[1], p[2]) {
        (Variant::Integer(i), Variant::Integer(j)) => Some((i, j)),
        _ => None,
    }
}

/// The calls on which `math_max` is defined.
pub open spec fn math_max_accepts(p: Seq<Variant>) -> bool {
    &&& p.len() > 1
    &&& p[1] is Integer ==> p.len() > 2
}

/// What `math_max` returns.
pub open spec fn math_max_post(p: Seq<Variant>, r: Result<Option<Variant>, RuntimeError>) -> bool {
    &&& match (p[1], p[2]) {
        (Variant::Integer(i), Variant::Integer(j)) => r == Ok::<Option<Variant>, RuntimeError>(Some(Variant::Integer(if i >= j { i } else { j }))),
        _ => r == Err::<Option<Variant>, RuntimeError>(RuntimeError::UnknownNativeParameterToken),
    }
}

/// `Math.max` of two integers.
pub fn math_max(p: Vec<Variant>) -> (r: Result<Option<Variant>, RuntimeError>)
    requires
        math_max_accepts(p@),
    ensures
        math_max_post(p@, r),
{
    if let Variant::Integer(i) = &p[PARAM_1] {
        if let Variant::Integer(j) = &p[PARAM_2] {
            return Ok(Some(Variant::Integer(if *i >= *j { *i } else { *j })));
        }
    }
    Err(RuntimeError::UnknownNativeParameterToken)
}

/// The calls on which `math_min` is defined.
pub open spec fn math_min_accepts(p: Seq<Variant>) -> bool {
    &&& p.len() > 1
    &&& p[1] is Integer ==> p.len() > 2
}

/// What `math_min` returns.
pub open spec fn math_min_post(p: Seq<Variant>, r: Result<Option<Variant>, RuntimeError>) -> bool {
    &&& match (p[1], p[2]) {
        (Variant::Integer(i), Variant::Integer(j)) => r == Ok::<Option<Variant>, RuntimeError>(Some(Variant::Integer(if i <= j { i } else { j }))),
        _ => r == Err::<Option<Variant>, RuntimeError>(RuntimeError::UnknownNativeParameterToken),
    }
}

/// `Math.min` of two integers.
pub fn math_min(p: Vec<Variant>) -> (r: Result<Option<Variant>, RuntimeError>)
    requires
        math_min_accepts(p@),
    ensures
        math_min_post(p@, r),
{
    if let Variant::Integer(i) = &p[PARAM_1] {
        if let Variant::Integer(j) = &p[PARAM_2] {
            return Ok(Some(Variant::Integer(if *i <= *j { *i } else { *j })));
        }
    }
    Err(RuntimeError::UnknownNativeParameterToken)
}

/// The calls on which `math_abs` is defined.
pub open spec fn math_abs_accepts(p: Seq<Variant>) -> bool {
    &&& p.len() > 1
    &&& p[1] != Variant::Integer(i64::MIN)
}

/// What `math_abs` returns.
pub open spec fn math_abs_post(p: Seq<Variant>, r: Result<Option<Variant>, RuntimeError>) -> bool {
    &&& match p[1] {
        Variant::Integer(i) => r == Ok::<Option<Variant>, RuntimeError>(Some(Variant::Integer((if i < 0 { -i } else { i as int }) as i64))),
        _ => r == Err::<Option<Variant>, RuntimeError>(RuntimeError::UnknownNativeParameterToken),
    }
}

/// `Math.abs` of an integer; the smallest integer has no absolute value.
pub fn math_abs(p: Vec<Variant>) -> (r: Result<Option<Variant>, RuntimeError>)
    requires
        math_abs_accepts(p@),
    ensures
        math_abs_post(p@, r),
{
    if let Variant::Integer(i) = &p[PARAM_1] {
        let i = *i;
        return Ok(Some(Variant::Integer(if i < 0 { -i } else { i })));
    }
    Err(RuntimeError::UnknownNativeParameterToken)
}

} // verus!

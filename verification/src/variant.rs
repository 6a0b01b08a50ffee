use vstd::prelude::*;

use crate::table::Table;

verus! {

/// Name under which a class keeps its constructor.
pub const CLASS_CONSTRUCTOR_NAME: &'static str = "constructor";

/// Name under which a native class keeps its internal value.
pub const INTERNAL_CLASS_VALUE: &'static str = "#value";

/// A value of the scripting language. Floating-point numbers are carried as
/// their IEEE-754 bit pattern; objects live in a `Heap` and are referred to by
/// their index there.
#[derive(Debug, PartialEq)]
pub enum Variant {
    Null,
    Integer(i64),
    Float(u64),
    Bool(bool),
    String(String),
    Identifier(String),
    Type(String),
    FunctionRef(String),
    FunctionPointer(usize),
    NativeFunctionRef(String),
    Object(usize),
    Class(Table<Variant>),
    Module(Table<Variant>),
    Enum(Table<i64>),
    Dict(Table<Variant>),
    Array(Vec<Variant>),
    Iterator(Box<Counter>),
}

/// How deep `same_value` and `copy` look into nested values: no value that
/// fits in memory nests deeper.
pub const DEPTH: usize = 0xffff_ffff;

/// `a` and `b` are the same value, looking `fuel` levels deep: scalars and
/// texts are equal, objects are the same object, arrays agree item by item,
/// and tables have the same size and give the same value under each of the
/// first table's names. Below `fuel` levels nothing more is compared.
pub open spec fn same_value(a: Variant, b: Variant, fuel: nat) -> bool
    decreases fuel, 0nat,
{
    if fuel == 0 {
        true
    } else {
        let f = (fuel - 1) as nat;
        match (a, b) {
            (Variant::Null, Variant::Null) => true,
            (Variant::Integer(x), Variant::Integer(y)) => x == y,
            (Variant::Float(x), Variant::Float(y)) => x == y,
            (Variant::Bool(x), Variant::Bool(y)) => x == y,
            (Variant::String(x), Variant::String(y)) => x@ == y@,
            (Variant::Identifier(x), Variant::Identifier(y)) => x@ == y@,
            (Variant::Type(x), Variant::Type(y)) => x@ == y@,
            (Variant::FunctionRef(x), Variant::FunctionRef(y)) => x@ == y@,
            (Variant::FunctionPointer(x), Variant::FunctionPointer(y)) => x == y,
            (Variant::NativeFunctionRef(x), Variant::NativeFunctionRef(y)) => x@ == y@,
            (Variant::Object(x), Variant::Object(y)) => x == y,
            (Variant::Class(x), Variant::Class(y)) => same_table(x, y, x.spec_len(), f),
            (Variant::Module(x), Variant::Module(y)) => same_table(x, y, x.spec_len(), f),
            (Variant::Dict(x), Variant::Dict(y)) => same_table(x, y, x.spec_len(), f),
            (Variant::Enum(x), Variant::Enum(y)) => same_enum(x, y),
            (Variant::Array(x), Variant::Array(y)) => x@.len() == y@.len() && same_items(x@, y@, x@.len(), f),
            (Variant::Iterator(x), Variant::Iterator(y)) => {
                &&& x.spec_index() == y.spec_index()
                &&& x.spec_start() == y.spec_start()
                &&& x.spec_step() == y.spec_step()
                &&& same_value(x.spec_target(), y.spec_target(), f)
            },
            _ => false,
        }
    }
}

/// The first `n` items of `xs` and `ys` are the same values.
pub open spec fn same_items(xs: Seq<Variant>, ys: Seq<Variant>, n: nat, fuel: nat) -> bool
    decreases fuel, 1 + n,
{
    if n == 0 {
        true
    } else {
        same_items(xs, ys, (n - 1) as nat, fuel) && same_value(xs[n - 1], ys[n - 1], fuel)
    }
}

/// Same size, and under each of the first `n` names of `x` both tables hold
/// the same value.
pub open spec fn same_table(x: Table<Variant>, y: Table<Variant>, n: nat, fuel: nat) -> bool
    decreases fuel, 1 + n,
{
    if n == 0 {
        x.spec_len() == y.spec_len()
    } else {
        &&& same_table(x, y, (n - 1) as nat, fuel)
        &&& match (x.spec_get(x.spec_entries()[n - 1].0@), y.spec_get(x.spec_entries()[n - 1].0@)) {
            (Some(u), Some(v)) => same_value(u, v, fuel),
            _ => false,
        }
    }
}

/// Same size, and each name of `x` has the same number in `y`.
pub open spec fn same_enum(x: Table<i64>, y: Table<i64>) -> bool {
    &&& x.spec_len() == y.spec_len()
    &&& forall|i: int| 0 <= i < x.spec_len() ==> #[trigger] y.spec_get(x.spec_entries()[i].0@) == x.spec_get(x.spec_entries()[i].0@)
}

/// Walks a range of integers or the items of an array.
#[derive(Debug, PartialEq)]
pub struct Counter {
    index: usize,
    start: i64,
    step: i64,
    target: Variant,
}

impl Counter {
    pub closed spec fn spec_index(&self) -> usize {
        self.index
    }

    pub closed spec fn spec_start(&self) -> i64 {
        self.start
    }

    pub closed spec fn spec_step(&self) -> i64 {
        self.step
    }

    pub closed spec fn spec_target(&self) -> Variant {
        self.target
    }

    pub fn new(start: i64, step: i64, target: Variant) -> (r: Self)
        ensures
            r.spec_index() == 0,
            r.spec_start() == start,
            r.spec_step() == step,
            r.spec_target() == target,
    {
        Counter { index: 0, start, step, target }
    }

    /// The next item: over an array, its items in order; over an integer
    /// `end`, `start + i * step` for `i` from 0 while `i < end`; nothing for any
    /// other target. Arithmetic wraps.
    pub fn next(&mut self) -> (r: Option<Variant>)
        ensures
            counter_next(*old(self), *final(self), r),
    {
        match &self.target {
            Variant::Array(array) => {
                if self.index >= array.len() {
                    return None;
                }
                let value = array[self.index].copy();
                self.index = self.index + 1;
                Some(value)
            },
            Variant::Integer(end) => {
                if self.index as i64 >= *end {
                    return None;
                }
                let value = Variant::Integer(self.start.wrapping_add((self.index as i64).wrapping_mul(self.step)));
                self.index = self.index.wrapping_add(1);
                Some(value)
            },
            _ => None,
        }
    }
}

/// What one step of counter `c0` gives, and the counter `c1` it leaves.
pub open spec fn counter_next(c0: Counter, c1: Counter, r: Option<Variant>) -> bool {
    &&& c1.spec_start() == c0.spec_start()
    &&& c1.spec_step() == c0.spec_step()
    &&& c1.spec_target() == c0.spec_target()
    &&& match c0.spec_target() {
        Variant::Array(a) => if c0.spec_index() >= a@.len() {
            r is None && c1.spec_index() == c0.spec_index()
        } else {
            &&& r matches Some(v) && same_value(a@[c0.spec_index() as int], v, DEPTH as nat)
            &&& c1.spec_index() == c0.spec_index() + 1
        },
        Variant::Integer(end) => if c0.spec_index() as i64 >= end {
            r is None && c1.spec_index() == c0.spec_index()
        } else {
            &&& r == Some(Variant::Integer(c0.spec_start().wrapping_add((c0.spec_index() as i64).wrapping_mul(c0.spec_step()))))
            &&& c1.spec_index() == c0.spec_index().wrapping_add(1)
        },
        _ => r is None && c1.spec_index() == c0.spec_index(),
    }
}

/// Where the objects live.
#[derive(Debug, PartialEq)]
pub struct Heap {
    objects: Vec<Table<Variant>>,
}

impl Heap {
    pub closed spec fn spec_objects(&self) -> Seq<Table<Variant>> {
        self.objects@
    }

    pub fn new() -> (r: Self)
        ensures
            r.spec_objects().len() == 0,
    {
        Heap { objects: Vec::new() }
    }

    /// Places a new object with the given members and returns a reference to it.
    pub fn allocate(&mut self, members: Table<Variant>) -> (r: Variant)
        ensures
            final(self).spec_objects() == old(self).spec_objects().push(members),
            r == Variant::Object(old(self).spec_objects().len() as usize),
    {
        let id = self.objects.len();
        self.objects.push(members);
        Variant::Object(id)
    }

    /// The number of objects placed so far.
    pub fn len(&self) -> (r: usize)
        ensures
            r == self.spec_objects().len(),
    {
        self.objects.len()
    }

    pub fn get(&self, id: usize) -> (r: Option<&Table<Variant>>)
        ensures
            match r {
                Some(t) => id < self.spec_objects().len() && *t == self.spec_objects()[id as int],
                None => id >= self.spec_objects().len(),
            },
    {
        if id < self.objects.len() {
            Some(&self.objects[id])
        } else {
            None
        }
    }

    /// Puts `value` in member `key` of object `id` and hands back what was
    /// there; nothing changes when there is no such object or member.
    pub fn replace_member(&mut self, id: usize, key: &str, value: Variant) -> (r: Option<Variant>)
        ensures
            final(self).spec_objects().len() == old(self).spec_objects().len(),
            forall|j: int| 0 <= j < old(self).spec_objects().len() && j != id ==> #[trigger] final(self).spec_objects()[j] == old(self).spec_objects()[j],
            id >= old(self).spec_objects().len() ==> r is None && final(self).spec_objects() == old(self).spec_objects(),
            id < old(self).spec_objects().len() ==> {
                let t = final(self).spec_objects()[id as int];
                let t0 = old(self).spec_objects()[id as int];
                &&& r == t0.spec_get(key@)
                &&& r is Some ==> t.spec_get(key@) == Some(value)
                &&& r is None ==> t.spec_entries() == t0.spec_entries()
                &&& forall|k: Seq<char>| k != key@ ==> #[trigger] t.spec_get(k) == t0.spec_get(k)
            },
    {
        if id >= self.objects.len() {
            return None;
        }
        let mut object = self.objects.remove(id);
        let r = object.replace(key, value);
        self.objects.insert(id, object);
        r
    }

    /// Sets a member of an object; false when there is no such object.
    pub fn set_member(&mut self, id: usize, key: String, value: Variant) -> (r: bool)
        ensures
            r == (id < old(self).spec_objects().len()),
            final(self).spec_objects().len() == old(self).spec_objects().len(),
            forall|j: int| 0 <= j < old(self).spec_objects().len() && j != id ==> #[trigger] final(self).spec_objects()[j] == old(self).spec_objects()[j],
            r ==> ({
                let t = final(self).spec_objects()[id as int];
                let t0 = old(self).spec_objects()[id as int];
                &&& t.spec_get(key@) == Some(value)
                &&& forall|k: Seq<char>| k != key@ ==> #[trigger] t.spec_get(k) == t0.spec_get(k)
            }),
    {
        if id < self.objects.len() {
            self.objects[id].insert(key, value);
            true
        } else {
            false
        }
    }
}

} // verus!

verus! {

proof fn lemma_same_items_false(xs: Seq<Variant>, ys: Seq<Variant>, n: nat, m: nat, fuel: nat)
    requires
        n <= m,
        !same_items(xs, ys, n, fuel),
    ensures
        !same_items(xs, ys, m, fuel),
    decreases m - n,
{
    if n < m {
        lemma_same_items_false(xs, ys, n, (m - 1) as nat, fuel);
    }
}

proof fn lemma_same_table_false(x: Table<Variant>, y: Table<Variant>, n: nat, m: nat, fuel: nat)
    requires
        n <= m,
        !same_table(x, y, n, fuel),
    ensures
        !same_table(x, y, m, fuel),
    decreases m - n,
{
    if n < m {
        lemma_same_table_false(x, y, n, (m - 1) as nat, fuel);
    }
}

/// Whether two tables hold the same values under the same names.
fn table_equal(x: &Table<Variant>, y: &Table<Variant>, fuel: usize) -> (r: bool)
    ensures
        r == same_table(*x, *y, x.spec_len(), fuel as nat),
    decreases fuel, 1usize,
{
    let n = x.len();
    if n != y.len() {
        proof {
            lemma_same_table_false(*x, *y, 0, n as nat, fuel as nat);
        }
        return false;
    }
    let mut i: usize = 0;
    while i < n
        invariant
            n == x.spec_len(),
            i <= n,
            same_table(*x, *y, i as nat, fuel as nat),
        decreases n - i,
    {
        let k = x.key_at(i);
        let u = x.get(k.as_str());
        let v = y.get(k.as_str());
        let ok = match (u, v) {
            (Some(u), Some(v)) => variant_equal(u, v, fuel),
            _ => false,
        };
        if !ok {
            proof {
                lemma_same_table_false(*x, *y, (i + 1) as nat, n as nat, fuel as nat);
            }
            return false;
        }
        i = i + 1;
    }
    true
}

fn enum_equal(x: &Table<i64>, y: &Table<i64>) -> (r: bool)
    ensures
        r == same_enum(*x, *y),
{
    let n = x.len();
    if n != y.len() {
        return false;
    }
    let mut i: usize = 0;
    while i < n
        invariant
            n == x.spec_len(),
            n == y.spec_len(),
            i <= n,
            forall|j: int| 0 <= j < i ==> #[trigger] y.spec_get(x.spec_entries()[j].0@) == x.spec_get(x.spec_entries()[j].0@),
        decreases n - i,
    {
        let k = x.key_at(i);
        let u = x.get(k.as_str());
        let v = y.get(k.as_str());
        let ok = match (u, v) {
            (Some(u), Some(v)) => *u == *v,
            (None, None) => true,
            _ => false,
        };
        if !ok {
            return false;
        }
        i = i + 1;
    }
    true
}

/// Whether `a` and `b` are the same value, looking `fuel` levels deep.
pub fn variant_equal(a: &Variant, b: &Variant, fuel: usize) -> (r: bool)
    ensures
        r == same_value(*a, *b, fuel as nat),
    decreases fuel, 0usize,
{
    if fuel == 0 {
        return true;
    }
    let f: usize = fuel - 1;
    match (a, b) {
        (Variant::Null, Variant::Null) => true,
        (Variant::Integer(x), Variant::Integer(y)) => *x == *y,
        (Variant::Float(x), Variant::Float(y)) => *x == *y,
        (Variant::Bool(x), Variant::Bool(y)) => *x == *y,
        (Variant::String(x), Variant::String(y)) => *x == *y,
        (Variant::Identifier(x), Variant::Identifier(y)) => *x == *y,
        (Variant::Type(x), Variant::Type(y)) => *x == *y,
        (Variant::FunctionRef(x), Variant::FunctionRef(y)) => *x == *y,
        (Variant::FunctionPointer(x), Variant::FunctionPointer(y)) => *x == *y,
        (Variant::NativeFunctionRef(x), Variant::NativeFunctionRef(y)) => *x == *y,
        (Variant::Object(x), Variant::Object(y)) => *x == *y,
        (Variant::Class(x), Variant::Class(y)) => table_equal(x, y, f),
        (Variant::Module(x), Variant::Module(y)) => table_equal(x, y, f),
        (Variant::Dict(x), Variant::Dict(y)) => table_equal(x, y, f),
        (Variant::Enum(x), Variant::Enum(y)) => enum_equal(x, y),
        (Variant::Array(x), Variant::Array(y)) => {
            if x.len() != y.len() {
                return false;
            }
            let mut i: usize = 0;
            while i < x.len()
                invariant
                    f < fuel,
                    f == fuel - 1,
                    *a == Variant::Array(*x),
                    *b == Variant::Array(*y),
                    x.len() == y.len(),
                    i <= x.len(),
                    same_items(x@, y@, i as nat, f as nat),
                decreases x.len() - i,
            {
                if !variant_equal(&x[i], &y[i], f) {
                    proof {
                        lemma_same_items_false(x@, y@, (i + 1) as nat, x@.len(), f as nat);
                        assert(((fuel as nat) - 1) as nat == f as nat);
                    }
                    return false;
                }
                i = i + 1;
            }
            true
        },
        (Variant::Iterator(x), Variant::Iterator(y)) => {
            x.index == y.index && x.start == y.start && x.step == y.step && variant_equal(&x.target, &y.target, f)
        },
        _ => false,
    }
}

/// A copy of a table of values, member by member.
pub fn copy_members(x: &Table<Variant>) -> (r: Table<Variant>)
    ensures
        same_table(*x, r, x.spec_len(), DEPTH as nat),
        r.spec_keys() == x.spec_keys(),
{
    copy_table(x, DEPTH)
}

impl Variant {
    /// A copy of this value, `same_value` as it.
    pub fn copy(&self) -> (r: Variant)
        ensures
            same_value(*self, r, DEPTH as nat),
    {
        copy_value(self, DEPTH)
    }
}

proof fn lemma_copy_table(x: Table<Variant>, r: Table<Variant>, m: nat, fuel: nat)
    requires
        m <= x.spec_len(),
        r.spec_len() == x.spec_len(),
        forall|j: int| 0 <= j < x.spec_len() ==> #[trigger] r.spec_entries()[j].0@ == x.spec_entries()[j].0@,
        forall|j: int| 0 <= j < x.spec_len() ==> #[trigger] same_value(x.spec_entries()[j].1, r.spec_entries()[j].1, fuel),
    ensures
        same_table(x, r, m, fuel),
    decreases m,
{
    if m > 0 {
        lemma_copy_table(x, r, (m - 1) as nat, fuel);
        let k = x.spec_entries()[m - 1].0@;
        crate::table::lemma_find_same_names(x.spec_entries(), r.spec_entries(), k);
        crate::table::lemma_find_in_props(x.spec_entries(), k);
        let i = x.spec_find(k)->0;
        assert(r.spec_find(k) == Some(i));
        assert(same_value(x.spec_entries()[i].1, r.spec_entries()[i].1, fuel));
        assert(x.spec_get(k) == Some(x.spec_entries()[i].1));
        assert(r.spec_get(k) == Some(r.spec_entries()[i].1));
    }
}

fn copy_table(x: &Table<Variant>, fuel: usize) -> (r: Table<Variant>)
    ensures
        same_table(*x, r, x.spec_len(), fuel as nat),
        r.spec_keys() == x.spec_keys(),
    decreases fuel, 1usize,
{
    let n = x.len();
    let mut entries: Vec<(String, Variant)> = Vec::new();
    let mut i: usize = 0;
    while i < n
        invariant
            n == x.spec_len(),
            i <= n,
            entries@.len() == i,
            forall|j: int| 0 <= j < i ==> #[trigger] entries@[j].0@ == x.spec_entries()[j].0@,
            forall|j: int| 0 <= j < i ==> #[trigger] same_value(x.spec_entries()[j].1, entries@[j].1, fuel as nat),
        decreases n - i,
    {
        let k = x.key_at(i).clone();
        let v = copy_value(x.value_at(i), fuel);
        let ghost before = entries@;
        entries.push((k, v));
        proof {
            assert forall|j: int| 0 <= j <= i implies #[trigger] entries@[j].0@ == x.spec_entries()[j].0@ by {
                if j < i {
                    assert(entries@[j] == before[j]);
                }
            }
        }
        i = i + 1;
    }
    let r = Table::from_entries(entries);
    proof {
        assert forall|j: int| 0 <= j < n implies #[trigger] r.spec_entries()[j].0@ == x.spec_entries()[j].0@ by {}
        assert(r.spec_keys() =~= x.spec_keys());
        lemma_copy_table(*x, r, n as nat, fuel as nat);
    }
    r
}

fn copy_enum(x: &Table<i64>) -> (r: Table<i64>)
    ensures
        same_enum(*x, r),
{
    let n = x.len();
    let mut entries: Vec<(String, i64)> = Vec::new();
    let mut i: usize = 0;
    while i < n
        invariant
            n == x.spec_len(),
            i <= n,
            entries@.len() == i,
            forall|j: int| 0 <= j < i ==> #[trigger] entries@[j].0@ == x.spec_entries()[j].0@,
            forall|j: int| 0 <= j < i ==> #[trigger] entries@[j].1 == x.spec_entries()[j].1,
        decreases n - i,
    {
        let k = x.key_at(i).clone();
        let v = *x.value_at(i);
        let ghost before = entries@;
        entries.push((k, v));
        proof {
            assert forall|j: int| 0 <= j <= i implies #[trigger] entries@[j].0@ == x.spec_entries()[j].0@ by {
                if j < i {
                    assert(entries@[j] == before[j]);
                }
            }
        }
        i = i + 1;
    }
    let r = Table::from_entries(entries);
    proof {
        assert forall|j: int| 0 <= j < n implies #[trigger] r.spec_get(x.spec_entries()[j].0@) == x.spec_get(x.spec_entries()[j].0@) by {
            let k = x.spec_entries()[j].0@;
            crate::table::lemma_find_same_names(x.spec_entries(), r.spec_entries(), k);
            crate::table::lemma_find_in_props(x.spec_entries(), k);
        }
    }
    r
}

fn copy_value(a: &Variant, fuel: usize) -> (r: Variant)
    ensures
        same_value(*a, r, fuel as nat),
    decreases fuel, 0usize,
{
    if fuel == 0 {
        return Variant::Null;
    }
    let f: usize = fuel - 1;
    match a {
        Variant::Null => Variant::Null,
        Variant::Integer(x) => Variant::Integer(*x),
        Variant::Float(x) => Variant::Float(*x),
        Variant::Bool(x) => Variant::Bool(*x),
        Variant::String(x) => Variant::String(x.clone()),
        Variant::Identifier(x) => Variant::Identifier(x.clone()),
        Variant::Type(x) => Variant::Type(x.clone()),
        Variant::FunctionRef(x) => Variant::FunctionRef(x.clone()),
        Variant::FunctionPointer(x) => Variant::FunctionPointer(*x),
        Variant::NativeFunctionRef(x) => Variant::NativeFunctionRef(x.clone()),
        Variant::Object(x) => Variant::Object(*x),
        Variant::Class(x) => Variant::Class(copy_table(x, f)),
        Variant::Module(x) => Variant::Module(copy_table(x, f)),
        Variant::Dict(x) => Variant::Dict(copy_table(x, f)),
        Variant::Enum(x) => Variant::Enum(copy_enum(x)),
        Variant::Array(x) => {
            let mut items: Vec<Variant> = Vec::new();
            let mut i: usize = 0;
            while i < x.len()
                invariant
                    f < fuel,
                    i <= x.len(),
                    items@.len() == i,
                    same_items(x@, items@, i as nat, f as nat),
                    forall|j: int| 0 <= j < i ==> #[trigger] same_value(x@[j], items@[j], f as nat),
                decreases x.len() - i,
            {
                let v = copy_value(&x[i], f);
                let ghost before = items@;
                items.push(v);
                proof {
                    lemma_same_items_prefix(x@, before, items@, i as nat, f as nat);
                }
                i = i + 1;
            }
            Variant::Array(items)
        },
        Variant::Iterator(x) => {
            let t = copy_value(&x.target, f);
            Variant::Iterator(Box::new(Counter { index: x.index, start: x.start, step: x.step, target: t }))
        },
    }
}

/// Appending to the second sequence keeps the prefix comparison.
proof fn lemma_same_items_prefix(xs: Seq<Variant>, ys: Seq<Variant>, zs: Seq<Variant>, n: nat, fuel: nat)
    requires
        n <= ys.len(),
        zs.len() >= ys.len(),
        forall|j: int| 0 <= j < ys.len() ==> #[trigger] zs[j] == ys[j],
        same_items(xs, ys, n, fuel),
        n < zs.len() ==> same_value(xs[n as int], zs[n as int], fuel),
    ensures
        n < zs.len() ==> same_items(xs, zs, n + 1, fuel),
        same_items(xs, zs, n, fuel),
    decreases n,
{
    if n > 0 {
        lemma_same_items_prefix(xs, ys, zs, (n - 1) as nat, fuel);
        assert(zs[n - 1] == ys[n - 1]);
    }
    let k: nat = n + 1;
    assert((k - 1) as nat == n);
    assert(k - 1 == n as int);
    assert(same_items(xs, zs, k, fuel) == (same_items(xs, zs, (k - 1) as nat, fuel) && same_value(xs[k - 1], zs[k - 1], fuel)));
}


/// The `i`-th name of `x` is compared by `same_table(x, y, n, fuel)` when `i < n`.
proof fn lemma_same_table_at(x: Table<Variant>, y: Table<Variant>, n: nat, fuel: nat, i: int)
    requires
        same_table(x, y, n, fuel),
        0 <= i < n,
    ensures
        match (x.spec_get(x.spec_entries()[i].0@), y.spec_get(x.spec_entries()[i].0@)) {
            (Some(u), Some(v)) => same_value(u, v, fuel),
            _ => false,
        },
    decreases n,
{
    if i < n - 1 {
        lemma_same_table_at(x, y, (n - 1) as nat, fuel, i);
    }
}

proof fn lemma_same_table_len(x: Table<Variant>, y: Table<Variant>, n: nat, fuel: nat)
    requires
        same_table(x, y, n, fuel),
    ensures
        x.spec_len() == y.spec_len(),
    decreases n,
{
    if n > 0 {
        lemma_same_table_len(x, y, (n - 1) as nat, fuel);
    }
}

proof fn lemma_same_items_at(xs: Seq<Variant>, ys: Seq<Variant>, n: nat, fuel: nat, i: int)
    requires
        same_items(xs, ys, n, fuel),
        0 <= i < n,
    ensures
        same_value(xs[i], ys[i], fuel),
    decreases n,
{
    if i < n - 1 {
        lemma_same_items_at(xs, ys, (n - 1) as nat, fuel, i);
    }
}

/// A name that a table holds is found in it.
proof fn lemma_own_name_found<V>(x: Table<V>, i: int)
    requires
        0 <= i < x.spec_len(),
    ensures
        x.spec_get(x.spec_entries()[i].0@) is Some,
{
    crate::table::lemma_find_in_props(x.spec_entries(), x.spec_entries()[i].0@);
}

proof fn lemma_same_table_trans(x: Table<Variant>, y: Table<Variant>, z: Table<Variant>, n: nat, fuel: nat)
    requires
        n <= x.spec_len(),
        same_table(x, y, x.spec_len(), fuel),
        same_table(y, z, y.spec_len(), fuel),
    ensures
        same_table(x, z, n, fuel),
    decreases fuel, 1 + n,
{
    if n == 0 {
        lemma_same_table_len(x, y, x.spec_len(), fuel);
        lemma_same_table_len(y, z, y.spec_len(), fuel);
    } else {
        lemma_same_table_trans(x, y, z, (n - 1) as nat, fuel);
        let i = n - 1;
        let k = x.spec_entries()[i].0@;
        lemma_same_table_at(x, y, x.spec_len(), fuel, i);
        crate::table::lemma_find_in_props(y.spec_entries(), k);
        let j = y.spec_find(k)->0;
        lemma_same_table_at(y, z, y.spec_len(), fuel, j);
        let u = x.spec_get(k)->0;
        let v = y.spec_get(k)->0;
        let w = z.spec_get(k)->0;
        lemma_same_value_trans(u, v, w, fuel);
    }
}

proof fn lemma_same_items_trans(xs: Seq<Variant>, ys: Seq<Variant>, zs: Seq<Variant>, n: nat, fuel: nat)
    requires
        n <= xs.len(),
        xs.len() == ys.len(),
        same_items(xs, ys, xs.len(), fuel),
        same_items(ys, zs, ys.len(), fuel),
    ensures
        same_items(xs, zs, n, fuel),
    decreases fuel, 1 + n,
{
    if n > 0 {
        lemma_same_items_trans(xs, ys, zs, (n - 1) as nat, fuel);
        lemma_same_items_at(xs, ys, xs.len(), fuel, n - 1);
        lemma_same_items_at(ys, zs, ys.len(), fuel, n - 1);
        lemma_same_value_trans(xs[n - 1], ys[n - 1], zs[n - 1], fuel);
    }
}

proof fn lemma_same_enum_trans(x: Table<i64>, y: Table<i64>, z: Table<i64>)
    requires
        same_enum(x, y),
        same_enum(y, z),
    ensures
        same_enum(x, z),
{
    assert forall|i: int| 0 <= i < x.spec_len() implies #[trigger] z.spec_get(x.spec_entries()[i].0@) == x.spec_get(
        x.spec_entries()[i].0@,
    ) by {
        let k = x.spec_entries()[i].0@;
        lemma_own_name_found(x, i);
        assert(y.spec_get(k) == x.spec_get(k));
        crate::table::lemma_find_in_props(y.spec_entries(), k);
        let j = y.spec_find(k)->0;
        assert(z.spec_get(y.spec_entries()[j].0@) == y.spec_get(y.spec_entries()[j].0@));
    }
}

/// A copy of a copy is a copy: `same_value` is transitive.
pub proof fn lemma_same_value_trans(a: Variant, b: Variant, c: Variant, fuel: nat)
    requires
        same_value(a, b, fuel),
        same_value(b, c, fuel),
    ensures
        same_value(a, c, fuel),
    decreases fuel, 0nat,
{
    if fuel > 0 {
        let f = (fuel - 1) as nat;
        match (a, b, c) {
            (Variant::Class(x), Variant::Class(y), Variant::Class(z)) => {
                lemma_same_table_trans(x, y, z, x.spec_len(), f);
            },
            (Variant::Module(x), Variant::Module(y), Variant::Module(z)) => {
                lemma_same_table_trans(x, y, z, x.spec_len(), f);
            },
            (Variant::Dict(x), Variant::Dict(y), Variant::Dict(z)) => {
                lemma_same_table_trans(x, y, z, x.spec_len(), f);
            },
            (Variant::Enum(x), Variant::Enum(y), Variant::Enum(z)) => {
                lemma_same_enum_trans(x, y, z);
            },
            (Variant::Array(x), Variant::Array(y), Variant::Array(z)) => {
                lemma_same_items_trans(x@, y@, z@, x@.len(), f);
            },
            (Variant::Iterator(x), Variant::Iterator(y), Variant::Iterator(z)) => {
                lemma_same_value_trans(x.spec_target(), y.spec_target(), z.spec_target(), f);
            },
            _ => {},
        }
    }
}


proof fn lemma_same_table_refl(x: Table<Variant>, n: nat, fuel: nat)
    requires
        n <= x.spec_len(),
    ensures
        same_table(x, x, n, fuel),
    decreases fuel, 1 + n,
{
    if n > 0 {
        lemma_same_table_refl(x, (n - 1) as nat, fuel);
        lemma_own_name_found(x, n - 1);
        let u = x.spec_get(x.spec_entries()[n - 1].0@)->0;
        lemma_same_value_refl(u, fuel);
    }
}

proof fn lemma_same_items_refl(xs: Seq<Variant>, n: nat, fuel: nat)
    requires
        n <= xs.len(),
    ensures
        same_items(xs, xs, n, fuel),
    decreases fuel, 1 + n,
{
    if n > 0 {
        lemma_same_items_refl(xs, (n - 1) as nat, fuel);
        lemma_same_value_refl(xs[n - 1], fuel);
    }
}

/// Every value is the same value as itself.
pub proof fn lemma_same_value_refl(a: Variant, fuel: nat)
    ensures
        same_value(a, a, fuel),
    decreases fuel, 0nat,
{
    if fuel > 0 {
        let f = (fuel - 1) as nat;
        match a {
            Variant::Class(x) => lemma_same_table_refl(x, x.spec_len(), f),
            Variant::Module(x) => lemma_same_table_refl(x, x.spec_len(), f),
            Variant::Dict(x) => lemma_same_table_refl(x, x.spec_len(), f),
            Variant::Array(x) => lemma_same_items_refl(x@, x@.len(), f),
            Variant::Iterator(x) => lemma_same_value_refl(x.spec_target(), f),
            _ => {},
        }
    }
}

} // verus!

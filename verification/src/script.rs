use vstd::prelude::*;

use std::time::Duration;

use crate::blocks::{function_code, name_text};
use crate::codegen::{name_of, Function};
use crate::instruction::Instruction;
use crate::grammar::{are_trees, g_script};
use crate::imports::text_rejected_with;
use crate::parser::Parser;
use crate::program::Program;
use crate::syntax::{CompilerError, CompilerErrorType, CompilerWarning, Syntax, TokenPosition};
use crate::table::Table;
use crate::timing::{elapsed, now};
use crate::variant::{Variant, CLASS_CONSTRUCTOR_NAME};

verus! {

/// The name of the object a method is called on.
pub const SELF_CONSTANT: &'static str = "self";

/// The member of a class or module that holds its name.
pub const TYPE_FIELD: &'static str = "_type";

/// The globals and the code of a script being compiled.
#[derive(Debug)]
pub struct Script {
    pub structure: Table<Variant>,
    pub instructions: Vec<Instruction>,
}

/// The code before is kept.
pub open spec fn code_kept(new: Seq<Instruction>, old: Seq<Instruction>) -> bool {
    &&& new.len() >= old.len()
    &&& new.take(old.len() as int) == old
}

/// The position, among the first `k` items of an enum, of the last one named
/// `n`.
pub open spec fn enum_index(items: Seq<Syntax>, k: int, n: Seq<char>) -> Option<int>
    decreases k,
{
    if k <= 0 {
        None
    } else if name_of(items[k - 1]) == Some(n) {
        Some(k - 1)
    } else {
        enum_index(items, k - 1, n)
    }
}

/// The name a top-level item is compiled under: that of a function, a
/// module, a class or an enum; other items have none.
pub open spec fn item_name(s: Syntax) -> Option<Seq<char>> {
    match s {
        Syntax::Function { function_name, .. } => name_of(*function_name),
        Syntax::Module { module_name, .. } => name_of(*module_name),
        Syntax::Class { class_name, .. } => name_of(*class_name),
        Syntax::Enum { name, .. } => name_of(*name),
        _ => None,
    }
}

/// The kind of global that a top-level item becomes.
pub open spec fn global_kind(s: Syntax, v: Variant) -> bool {
    match s {
        Syntax::Function { .. } => v is FunctionPointer,
        Syntax::Module { .. } => v is Module,
        Syntax::Class { .. } => v is Class,
        Syntax::Enum { .. } => v is Enum,
        _ => false,
    }
}

/// The last of the first `k` items named `n`.
pub open spec fn last_named(items: Seq<Syntax>, k: int, n: Seq<char>) -> Option<int>
    decreases k,
{
    if k <= 0 {
        None
    } else if item_name(items[k - 1]) == Some(n) {
        Some(k - 1)
    } else {
        last_named(items, k - 1, n)
    }
}

/// The last item named `n` is one of the first `k`.
pub proof fn lemma_last_named_in(items: Seq<Syntax>, k: int, n: Seq<char>)
    ensures
        last_named(items, k, n) matches Some(i) ==> 0 <= i < k && item_name(items[i]) == Some(n),
    decreases k,
{
    if k > 0 && item_name(items[k - 1]) != Some(n) {
        lemma_last_named_in(items, k - 1, n);
    }
}

/// The globals `after` are `before` with each named item of `items` under
/// its name, a later item replacing an earlier one of the same name; a
/// function global points at the start of the function's code in `code`.
pub open spec fn globals_of(before: Table<Variant>, after: Table<Variant>, items: Seq<Syntax>, k: int, code: Seq<
    Instruction,
>) -> bool {
    forall|n: Seq<char>| #[trigger]
        after.spec_get(n) == match last_named(items, k, n) {
            Some(i) => after.spec_get(n),
            None => before.spec_get(n),
        } && (last_named(items, k, n) matches Some(i) ==> after.spec_get(n) matches Some(v) && global_kind(
            items[i],
            v,
        ) && (v matches Variant::FunctionPointer(fp) ==> fp < code.len() && code[fp as int] is PushStackTrace))
}

/// An item that a module can hold: a named function, class, enum or module.
pub open spec fn module_member(s: Syntax) -> bool {
    &&& (s is Function || s is Module || s is Class || s is Enum)
    &&& item_name(s) is Some
}

/// `t` is the table of a module named `name` with the members `items`: each
/// named member under its name (a later one replacing an earlier one of the
/// same name), a function member pointing at the start of its code in
/// `code`, and the module's name under the type field unless a member takes
/// that name.
pub open spec fn module_of(t: Table<Variant>, name: String, items: Seq<Syntax>, code: Seq<Instruction>) -> bool {
    &&& forall|n: Seq<char>|
        last_named(items, items.len() as int, n) is None ==> #[trigger] t.spec_get(n) == if n == TYPE_FIELD@ {
            Some(Variant::Type(name))
        } else {
            None
        }
    &&& forall|n: Seq<char>|
        #![trigger t.spec_get(n)]
        last_named(items, items.len() as int, n) matches Some(i) ==> t.spec_get(n) matches Some(v) && global_kind(
            items[i],
            v,
        ) && (v matches Variant::FunctionPointer(fp) ==> fp < code.len() && code[fp as int] is PushStackTrace)
    &&& forall|i: int| 0 <= i < items.len() ==> #[trigger] module_member(items[i])
}

/// The name of a class attribute.
pub open spec fn attribute_name(s: Syntax) -> Option<Seq<char>> {
    match s {
        Syntax::Attribute { name, .. } => name_of(*name),
        _ => None,
    }
}

/// One of the first `k` attributes is named `n`.
pub open spec fn has_attribute(attributes: Seq<Syntax>, k: int, n: Seq<char>) -> bool
    decreases k,
{
    if k <= 0 {
        false
    } else {
        attribute_name(attributes[k - 1]) == Some(n) || has_attribute(attributes, k - 1, n)
    }
}

/// `t` is the table of a class named `name`: each method under its name (a
/// later one replacing an earlier one of the same name) and the constructor
/// under its name, each pointing at the start of its code in `code`; each
/// other attribute as `null`; and the class's name under the type field
/// unless a member takes that name. Every attribute and every method has a
/// name.
pub open spec fn class_of(t: Table<Variant>, name: String, attributes: Seq<Syntax>, methods: Seq<Syntax>, code: Seq<
    Instruction,
>) -> bool {
    &&& forall|n: Seq<char>|
        #![trigger t.spec_get(n)]
        (last_named(methods, methods.len() as int, n) is Some || n == CLASS_CONSTRUCTOR_NAME@) ==> (t.spec_get(n) matches Some(
            Variant::FunctionPointer(fp),
        ) && fp < code.len() && code[fp as int] is PushStackTrace)
    &&& forall|n: Seq<char>|
        last_named(methods, methods.len() as int, n) is None && n != CLASS_CONSTRUCTOR_NAME@ ==> #[trigger] t.spec_get(n)
            == if has_attribute(attributes, attributes.len() as int, n) {
            Some(Variant::Null)
        } else if n == TYPE_FIELD@ {
            Some(Variant::Type(name))
        } else {
            None
        }
    &&& forall|i: int| 0 <= i < methods.len() ==> #[trigger] methods[i] is Function && item_name(methods[i]) is Some
    &&& forall|i: int| 0 <= i < attributes.len() ==> #[trigger] attribute_name(attributes[i]) is Some
}

/// An identifier named `self`.
pub open spec fn self_name(s: Syntax) -> bool {
    s matches Syntax::Identifier { name, .. } && name@ == SELF_CONSTANT@
}

/// The parameter `self` that a method gets first.
pub open spec fn self_parameter(p: Syntax) -> bool {
    p matches Syntax::Variable { name, value: None, .. } && self_name(*name)
}

/// `a` is the statement by which a constructor gives the attribute `attr`
/// its value: `self.name = value`, or `null` without a value.
pub open spec fn attribute_assign(a: Syntax, attr: Syntax) -> bool {
    match attr {
        Syntax::Attribute { name, value, .. } => name_text(*name) matches Some(m) && (a matches Syntax::Assign {
            target,
            value: v,
            ..
        } && (*target matches Syntax::MemberAccess { target: t, index, .. } && self_name(*t) && (
        *index matches Syntax::Identifier { name: m2, .. } && m2 == m)) && *v == match value {
            Some(x) => *x,
            None => Syntax::Null,
        }),
        _ => false,
    }
}

/// `b` is the body that a constructor runs: an assignment for each attribute,
/// the last attribute first, then the constructor's own `body`, then
/// `return self`.
pub open spec fn constructor_body(b: Seq<Syntax>, attributes: Seq<Syntax>, body: Seq<Syntax>) -> bool {
    &&& b.len() == attributes.len() + body.len() + 1
    &&& forall|i: int| 0 <= i < attributes.len() ==> #[trigger] attribute_assign(b[i], attributes[attributes.len() - 1 - i])
    &&& b.subrange(attributes.len() as int, (attributes.len() + body.len()) as int) == body
    &&& b[b.len() - 1] matches Syntax::Return { expr: Some(e), .. } && self_name(*e)
}

/// A method whose code cannot be generated: no function, no name, or code
/// that cannot be generated (for a method, with some parameter `self` in
/// front of its own).
pub open spec fn method_fails(m: Syntax) -> bool {
    match m {
        Syntax::Function { function_name, is_static, parameters, body, .. } => name_of(*function_name) is None || if is_static {
            function_code(parameters@, body@) is None
        } else {
            exists|p: Syntax| #[trigger] self_parameter(p) && function_code(seq![p] + parameters@, body@) is None
        },
        _ => true,
    }
}

/// A constructor whose code cannot be generated: an attribute without a
/// name, or a body (with the attributes' assignments and `return self`) whose
/// code cannot be generated.
pub open spec fn constructor_fails(input: Seq<Syntax>, body: Seq<Syntax>, attributes: Seq<Syntax>) -> bool {
    ||| exists|i: int| 0 <= i < attributes.len() && #[trigger] attribute_name(attributes[i]) is None
    ||| exists|p: Syntax, b: Seq<Syntax>|
        #![trigger self_parameter(p), constructor_body(b, attributes, body)]
        self_parameter(p) && constructor_body(b, attributes, body) && function_code(seq![p] + input, b) is None
}

/// A class whose code cannot be generated: its constructor is no
/// constructor or fails, or one of its methods fails.
pub open spec fn class_fails(attributes: Seq<Syntax>, constructor: Option<Box<Syntax>>, methods: Seq<Syntax>) -> bool {
    ||| match constructor {
        None => constructor_fails(Seq::empty(), Seq::empty(), attributes),
        Some(c) => match *c {
            Syntax::Constructor { input, body, .. } => constructor_fails(input@, body@, attributes),
            _ => true,
        },
    }
    ||| exists|i: int| 0 <= i < methods.len() && #[trigger] method_fails(methods[i])
}

/// A member of a module that cannot be compiled: no function, class, enum
/// or module, one without a name, or one whose code cannot be generated.
pub open spec fn member_fails(s: Syntax) -> bool
    decreases s,
{
    match s {
        Syntax::Function { function_name, parameters, body, .. } => name_of(*function_name) is None || function_code(
            parameters@,
            body@,
        ) is None,
        Syntax::Class { class_name, attributes, constructor, methods, .. } => name_of(*class_name) is None || class_fails(
            attributes@,
            constructor,
            methods@,
        ),
        Syntax::Enum { name, items, .. } => name_of(*name) is None || exists|i: int|
            0 <= i < items@.len() && #[trigger] name_of(items@[i]) is None,
        Syntax::Module { module_name, body, .. } => name_of(*module_name) is None || members_fail(body@),
        _ => true,
    }
}

/// Some member of `items` cannot be compiled.
pub open spec fn members_fail(items: Seq<Syntax>) -> bool
    decreases items,
{
    if items.len() == 0 {
        false
    } else {
        members_fail(items.subrange(0, items.len() - 1)) || member_fails(items[items.len() - 1])
    }
}

/// Some function, module, class or enum of a script cannot be compiled.
pub open spec fn script_fails(items: Seq<Syntax>) -> bool
    decreases items.len(),
{
    if items.len() == 0 {
        false
    } else {
        let last = items[items.len() - 1];
        script_fails(items.subrange(0, items.len() - 1)) || ((last is Function || last is Module || last is Class
            || last is Enum) && member_fails(last))
    }
}

pub proof fn lemma_members_fail_prefix(items: Seq<Syntax>, k: int)
    requires
        0 <= k <= items.len(),
        members_fail(items.subrange(0, k)),
    ensures
        members_fail(items),
    decreases items.len() - k,
{
    if k < items.len() {
        let t = items.subrange(0, k + 1);
        assert(t.subrange(0, t.len() - 1) =~= items.subrange(0, k));
        lemma_members_fail_prefix(items, k + 1);
    } else {
        assert(items.subrange(0, k) =~= items);
    }
}

pub proof fn lemma_script_fails_prefix(items: Seq<Syntax>, k: int)
    requires
        0 <= k <= items.len(),
        script_fails(items.subrange(0, k)),
    ensures
        script_fails(items),
    decreases items.len() - k,
{
    if k < items.len() {
        let t = items.subrange(0, k + 1);
        assert(t.subrange(0, t.len() - 1) =~= items.subrange(0, k));
        lemma_script_fails_prefix(items, k + 1);
    } else {
        assert(items.subrange(0, k) =~= items);
    }
}

/// An identifier node for `name` at no particular position.
fn identifier_at_origin(name: &str) -> (r: Syntax)
    ensures
        r matches Syntax::Identifier { name: n, .. } && n@ == name@,
{
    Syntax::Identifier { position: TokenPosition { line: 0, column: 0 }, name: name.to_owned() }
}

impl Script {
    pub fn new() -> (r: Self)
        ensures
            r.structure.spec_len() == 0,
            forall|k: Seq<char>| #[trigger] r.structure.spec_get(k) is None,
            r.instructions@.len() == 0,
    {
        Script { structure: Table::new(), instructions: Vec::new() }
    }

    /// Appends the code of a function and gives a pointer to it.
    fn generate_function(&mut self, position: TokenPosition, name: String, input: Vec<Syntax>, body: Vec<Syntax>) -> (r:
        Result<Variant, CompilerError>)
        ensures
            final(self).structure == old(self).structure,
            r is Ok ==> code_kept(final(self).instructions@, old(self).instructions@),
            r matches Ok(v) ==> v == Variant::FunctionPointer(old(self).instructions@.len() as usize),
            r is Ok ==> old(self).instructions@.len() <= usize::MAX,
            r is Ok ==> final(self).instructions@.len() > old(self).instructions@.len(),
            r is Ok ==> final(self).instructions@[old(self).instructions@.len() as int] is PushStackTrace,
            match function_code(input@, body@) {
                Some(c) => r is Ok && final(self).instructions@.len() == old(self).instructions@.len() + 1 + c.len()
                    && final(self).instructions@.skip((old(self).instructions@.len() + 1) as int) == c,
                None => r is Err,
            },
    {
        let ghost inp = input@;
        let ghost bd = body@;
        let func = Function::new(position, name, input, body)?;
        let fp = Variant::FunctionPointer(self.instructions.len());
        let ghost before = self.instructions@;
        let mut code = func.instructions;
        let ghost added = code@;
        self.instructions.append(&mut code);
        proof {
            assert(self.instructions@.take(before.len() as int) =~= before);
            assert(self.instructions@[before.len() as int] == added[0]);
            if let Some(c) = function_code(inp, bd) {
                assert(self.instructions@.skip((before.len() + 1) as int) =~= added.skip(1));
            }
        }
        Ok(fp)
    }

    /// A method: a function whose first parameter is `self`.
    fn generate_method(&mut self, position: TokenPosition, name: String, input: Vec<Syntax>, body: Vec<Syntax>) -> (r: Result<
        Variant,
        CompilerError,
    >)
        ensures
            final(self).structure == old(self).structure,
            r is Ok ==> code_kept(final(self).instructions@, old(self).instructions@),
            r matches Ok(v) ==> v == Variant::FunctionPointer(old(self).instructions@.len() as usize),
            r is Ok ==> old(self).instructions@.len() <= usize::MAX,
            r is Ok ==> final(self).instructions@.len() > old(self).instructions@.len(),
            r is Ok ==> final(self).instructions@[old(self).instructions@.len() as int] is PushStackTrace,
            exists|p: Syntax| #[trigger] self_parameter(p) && match function_code(seq![p] + input@, body@) {
                Some(c) => r is Ok && final(self).instructions@.len() == old(self).instructions@.len() + 1 + c.len()
                    && final(self).instructions@.skip((old(self).instructions@.len() + 1) as int) == c,
                None => r is Err,
            },
    {
        let ghost inp = input@;
        let mut input = input;
        let param = Syntax::Variable {
            position: TokenPosition { line: 0, column: 0 },
            name: Box::new(identifier_at_origin(SELF_CONSTANT)),
            value: None,
        };
        let ghost pv = param;
        input.insert(0, param);
        proof {
            assert(input@ =~= seq![pv] + inp);
            assert(self_parameter(pv));
        }
        self.generate_function(position, name, input, body)
    }

    /// The constructor of a class: it first gives each attribute its value,
    /// then runs its body and returns `self`.
    #[verifier::loop_isolation(false)]
    fn generate_constructor(&mut self, position: TokenPosition, input: Vec<Syntax>, body: Vec<Syntax>, attributes: Vec<
        Syntax,
    >) -> (r: Result<Variant, CompilerError>)
        ensures
            final(self).structure == old(self).structure,
            r is Ok ==> code_kept(final(self).instructions@, old(self).instructions@),
            r matches Ok(v) ==> v == Variant::FunctionPointer(old(self).instructions@.len() as usize),
            r is Ok ==> old(self).instructions@.len() <= usize::MAX,
            r is Ok ==> final(self).instructions@.len() > old(self).instructions@.len(),
            r is Ok ==> final(self).instructions@[old(self).instructions@.len() as int] is PushStackTrace,
            r is Ok ==> forall|i: int| 0 <= i < attributes@.len() ==> #[trigger] attribute_name(attributes@[i]) is Some,
            !(forall|i: int| 0 <= i < attributes@.len() ==> #[trigger] attribute_name(attributes@[i]) is Some) ==> r is Err,
            (forall|i: int| 0 <= i < attributes@.len() ==> #[trigger] attribute_name(attributes@[i]) is Some) ==> exists|
                p: Syntax,
                b: Seq<Syntax>,
            |
                #![trigger self_parameter(p), constructor_body(b, attributes@, body@)]
                self_parameter(p) && constructor_body(b, attributes@, body@) && match function_code(seq![p] + input@, b) {
                    Some(c) => r is Ok && final(self).instructions@.len() == old(self).instructions@.len() + 1 + c.len()
                        && final(self).instructions@.skip((old(self).instructions@.len() + 1) as int) == c,
                    None => r is Err,
                },
    {
        let ghost orig = attributes@;
        let ghost ob = body@;
        let mut body = body;
        body.push(
            Syntax::Return {
                position: TokenPosition { line: 0, column: 0 },
                expr: Some(Box::new(identifier_at_origin(SELF_CONSTANT))),
            },
        );
        let mut attributes = attributes;
        let ghost mut k: int = 0;
        proof {
            assert(body@.subrange(0, ob.len() as int) =~= ob);
        }
        while attributes.len() > 0
            invariant
                0 <= k <= orig.len(),
                attributes@ == orig.subrange(k, orig.len() as int),
                forall|i: int| 0 <= i < k ==> #[trigger] attribute_name(orig[i]) is Some,
                body@.len() == k + ob.len() + 1,
                forall|i: int| 0 <= i < k ==> #[trigger] attribute_assign(body@[i], orig[k - 1 - i]),
                body@.subrange(k, k + ob.len()) == ob,
                body@[body@.len() - 1] matches Syntax::Return { expr: Some(e), .. } && self_name(*e),
            decreases attributes.len(),
        {
            let attr = attributes.remove(0);
            proof {
                assert(attr == orig[k]);
            }
            match attr {
                Syntax::Attribute { name, value, .. } => {
                    let member = match *name {
                        Syntax::Identifier { name, .. } => name,
                        Syntax::String(name) => name,
                        other => {
                            proof {
                                assert(attribute_name(orig[k]) is None);
                            }
                            return Err(
                                CompilerError {
                                    error: CompilerErrorType::InvalidExpressionItem(Box::new(other)),
                                    position: TokenPosition { line: 0, column: 0 },
                                },
                            );
                        },
                    };
                    let value = match value {
                        Some(v) => v,
                        None => Box::new(Syntax::Null),
                    };
                    let assign = Syntax::Assign {
                        position: TokenPosition { line: 0, column: 0 },
                        target: Box::new(
                            Syntax::MemberAccess {
                                position: TokenPosition { line: 0, column: 0 },
                                target: Box::new(identifier_at_origin(SELF_CONSTANT)),
                                index: Box::new(
                                    Syntax::Identifier { position: TokenPosition { line: 0, column: 0 }, name: member },
                                ),
                            },
                        ),
                        value,
                    };
                    let ghost av = assign;
                    let ghost b0 = body@;
                    proof {
                        assert(attribute_assign(av, orig[k]));
                    }
                    body.insert(0, assign);
                    proof {
                        assert(body@ =~= seq![av] + b0);
                        assert forall|i: int| 0 <= i < k + 1 implies #[trigger] attribute_assign(body@[i], orig[k + 1 - 1 - i]) by {
                            if i > 0 {
                                assert(body@[i] == b0[i - 1]);
                                assert(attribute_assign(b0[i - 1], orig[k - 1 - (i - 1)]));
                            }
                        }
                        assert(body@.subrange(k + 1, k + 1 + ob.len()) =~= b0.subrange(k, k + ob.len()));
                    }
                },
                other => {
                    proof {
                        assert(attribute_name(orig[k]) is None);
                    }
                    return Err(
                        CompilerError {
                            error: CompilerErrorType::UnrecognizedItem,
                            position: TokenPosition { line: 0, column: 0 },
                        },
                    );
                },
            }
            proof {
                k = k + 1;
            }
        }
        proof {
            assert(k == orig.len());
            assert(constructor_body(body@, orig, ob));
        }
        let ghost bb = body@;
        let ghost inp = input@;
        let r = self.generate_method(position, CLASS_CONSTRUCTOR_NAME.to_owned(), input, body);
        proof {
            let p = choose|p: Syntax| #[trigger] self_parameter(p) && match function_code(seq![p] + inp, bb) {
                Some(c) => r is Ok && self.instructions@.len() == old(self).instructions@.len() + 1 + c.len()
                    && self.instructions@.skip((old(self).instructions@.len() + 1) as int) == c,
                None => r is Err,
            };
            assert(self_parameter(p) && constructor_body(bb, orig, ob));
        }
        r
    }

    /// A class: its name, its attributes (starting as `null`), its
    /// constructor and its methods.
    #[verifier::loop_isolation(false)]
    #[verifier::spinoff_prover]
    #[verifier::rlimit(60)]
    fn generate_class(
        &mut self,
        position: TokenPosition,
        name: String,
        attributes: Vec<Syntax>,
        constructor: Option<Box<Syntax>>,
        methods: Vec<Syntax>,
    ) -> (r: Result<Variant, CompilerError>)
        ensures
            final(self).structure == old(self).structure,
            r is Ok ==> code_kept(final(self).instructions@, old(self).instructions@),
            r matches Ok(v) ==> v is Class,
            r matches Ok(v) ==> (v matches Variant::Class(t) && class_of(
                t,
                name,
                attributes@,
                methods@,
                final(self).instructions@,
            )),
            r is Err ==> class_fails(attributes@, constructor, methods@),
    {
        let ghost attrs = attributes@;
        let ghost morig = methods@;
        let ghost cname = name;
        let mut structure: Table<Variant> = Table::new();
        structure.insert(TYPE_FIELD.to_owned(), Variant::Type(name));
        let mut i: usize = 0;
        while i < attributes.len()
            invariant
                attrs == attributes@,
                i <= attrs.len(),
                forall|n: Seq<char>| #[trigger] structure.spec_get(n) == if has_attribute(attrs, i as int, n) {
                    Some(Variant::Null)
                } else if n == TYPE_FIELD@ {
                    Some(Variant::Type(cname))
                } else {
                    None
                },
            decreases attributes.len() - i,
        {
            if let Syntax::Attribute { name: attribute, .. } = &attributes[i] {
                let member = match &**attribute {
                    Syntax::Identifier { name, .. } => Some(name.clone()),
                    Syntax::String(name) => Some(name.clone()),
                    _ => None,
                };
                if let Some(member) = member {
                    structure.insert(member, Variant::Null);
                }
            }
            i = i + 1;
        }
        let ghost s0 = self.instructions@;
        let ghost ctor = constructor;
        let v = match constructor {
            Some(c) => match *c {
                Syntax::Constructor { position, input, body } => {
                    let ghost iv = input@;
                    let ghost bv = body@;
                    match self.generate_constructor(position, input, body, attributes) {
                        Ok(v) => v,
                        Err(e) => {
                            proof {
                                assert(constructor_fails(iv, bv, attrs));
                            }
                            return Err(e);
                        },
                    }
                },
                _ => return Err(CompilerError { error: CompilerErrorType::UnrecognizedItem, position }),
            },
            None => {
                let input: Vec<Syntax> = Vec::new();
                let body: Vec<Syntax> = Vec::new();
                proof {
                    assert(input@ =~= Seq::<Syntax>::empty());
                    assert(body@ =~= Seq::<Syntax>::empty());
                }
                match self.generate_constructor(position, input, body, attributes) {
                    Ok(v) => v,
                    Err(e) => {
                        proof {
                            assert(constructor_fails(Seq::empty(), Seq::empty(), attrs));
                        }
                        return Err(e);
                    },
                }
            },
        };
        let ghost ctor_at = s0.len() as int;
        structure.insert(CLASS_CONSTRUCTOR_NAME.to_owned(), v);
        let ghost t1 = structure;
        let mut methods = methods;
        let ghost mut k: int = 0;
        proof {
            assert(self.instructions@.take(s0.len() as int) =~= s0);
        }
        while methods.len() > 0
            invariant
                code_kept(self.instructions@, s0),
                self.structure == old(self).structure,
                0 <= ctor_at < self.instructions@.len(),
                self.instructions@[ctor_at] is PushStackTrace,
                t1.spec_get(CLASS_CONSTRUCTOR_NAME@) == Some(Variant::FunctionPointer(ctor_at as usize)),
                ctor_at <= usize::MAX,
                0 <= k <= morig.len(),
                methods@ == morig.subrange(k, morig.len() as int),
                globals_of(t1, structure, morig, k, self.instructions@),
                forall|j: int| 0 <= j < k ==> #[trigger] morig[j] is Function && item_name(morig[j]) is Some,
            decreases methods.len(),
        {
            let method = methods.remove(0);
            let ghost before = self.instructions@;
            let ghost st0 = structure;
            proof {
                assert(method == morig[k]);
            }
            match method {
                Syntax::Function { position, function_name, is_static, parameters, body } => {
                    let ghost pv = parameters@;
                    let ghost bv = body@;
                    let method_name = match *function_name {
                        Syntax::Identifier { name, .. } => name,
                        Syntax::String(name) => name,
                        other => {
                            proof {
                                assert(method_fails(morig[k]));
                            }
                            return Err(
                                CompilerError { error: CompilerErrorType::InvalidExpressionItem(Box::new(other)), position },
                            );
                        },
                    };
                    let generated = if is_static {
                        self.generate_function(position, method_name.clone(), parameters, body)
                    } else {
                        self.generate_method(position, method_name.clone(), parameters, body)
                    };
                    let fp = match generated {
                        Ok(fp) => fp,
                        Err(e) => {
                            proof {
                                if !is_static {
                                    let p = choose|p: Syntax| #[trigger] self_parameter(p) && match function_code(seq![p] + pv, bv) {
                                        Some(c) => generated is Ok && self.instructions@.len() == before.len() + 1 + c.len()
                                            && self.instructions@.skip((before.len() + 1) as int) == c,
                                        None => generated is Err,
                                    };
                                    assert(self_parameter(p) && function_code(seq![p] + pv, bv) is None);
                                }
                                assert(method_fails(morig[k]));
                            }
                            return Err(e);
                        },
                    };
                    structure.insert(method_name, fp);
                    proof {
                        assert(self.instructions@.take(s0.len() as int) =~= before.take(s0.len() as int));
                        assert(self.instructions@[ctor_at] == before[ctor_at]);
                        assert forall|m: Seq<char>| #[trigger]
                            structure.spec_get(m) == match last_named(morig, k + 1, m) {
                                Some(i) => structure.spec_get(m),
                                None => t1.spec_get(m),
                            } && (last_named(morig, k + 1, m) matches Some(i) ==> structure.spec_get(m) matches Some(v)
                                && global_kind(morig[i], v) && (v matches Variant::FunctionPointer(fp) ==> fp
                                < self.instructions@.len() && self.instructions@[fp as int] is PushStackTrace)) by {
                            if item_name(morig[k]) != Some(m) {
                                assert(structure.spec_get(m) == st0.spec_get(m));
                                if last_named(morig, k, m) matches Some(i) {
                                    if let Some(Variant::FunctionPointer(p)) = st0.spec_get(m) {
                                        assert(self.instructions@[p as int] == before[p as int]);
                                    }
                                }
                            }
                        }
                        k = k + 1;
                    }
                },
                _ => {
                    proof {
                        assert(method_fails(morig[k]));
                    }
                    return Err(CompilerError { error: CompilerErrorType::UnrecognizedItem, position });
                },
            }
        }
        proof {
            assert(k == morig.len());
            assert forall|n: Seq<char>|
                (last_named(morig, morig.len() as int, n) is Some || n == CLASS_CONSTRUCTOR_NAME@) implies (
                #[trigger] structure.spec_get(n) matches Some(Variant::FunctionPointer(fp)) && fp < self.instructions@.len()
                && self.instructions@[fp as int] is PushStackTrace) by {
                if let Some(i) = last_named(morig, morig.len() as int, n) {
                    lemma_last_named_in(morig, morig.len() as int, n);
                    assert(morig[i] is Function);
                } else {
                    assert(structure.spec_get(n) == t1.spec_get(n));
                }
            }
        }
        Ok(Variant::Class(structure))
    }
}

impl Script {
    /// An enum: each item's name numbered by its position; a name given twice
    /// keeps its last position.
    pub fn generate_enum(&mut self, position: TokenPosition, name: String, items: Vec<Syntax>) -> (r: Result<
        Variant,
        CompilerError,
    >)
        ensures
            final(self).structure == old(self).structure,
            final(self).instructions == old(self).instructions,
            (forall|i: int| 0 <= i < items@.len() ==> #[trigger] name_of(items@[i]) is Some) <==> r is Ok,
            r matches Ok(v) ==> (v matches Variant::Enum(t) && forall|n: Seq<char>| #[trigger] t.spec_get(n) == match enum_index(items@, items@.len() as int, n) {
                Some(i) => Some(i as i64),
                None => None::<i64>,
            }),
    {
        let ghost orig = items@;
        let mut enum_def: Table<i64> = Table::new();
        let mut index: usize = 0;
        while index < items.len()
            invariant
                orig == items@,
                index <= items@.len(),
                forall|i: int| 0 <= i < index ==> #[trigger] name_of(items@[i]) is Some,
                forall|n: Seq<char>| #[trigger] enum_def.spec_get(n) == match enum_index(items@, index as int, n) {
                    Some(i) => Some(i as i64),
                    None => None::<i64>,
                },
            decreases items.len() - index,
        {
            let text = match &items[index] {
                Syntax::Identifier { name, .. } => name.clone(),
                Syntax::String(t) => t.clone(),
                _ => {
                    proof {
                        assert(name_of(items@[index as int]) is None);
                    }
                    return Err(CompilerError { error: CompilerErrorType::UnrecognizedItem, position });
                },
            };
            enum_def.insert(text, index as i64);
            index = index + 1;
        }
        Ok(Variant::Enum(enum_def))
    }

    /// A module: its name and its functions, classes, enums and modules.
    #[verifier::loop_isolation(false)]
    #[verifier::spinoff_prover]
    #[verifier::rlimit(40)]
    pub fn generate_module(&mut self, position: TokenPosition, name: String, body: Vec<Syntax>) -> (r: Result<
        Variant,
        CompilerError,
    >)
        ensures
            final(self).structure == old(self).structure,
            r is Ok ==> code_kept(final(self).instructions@, old(self).instructions@),
            r matches Ok(v) ==> v is Module,
            r matches Ok(v) ==> (v matches Variant::Module(t) && module_of(t, name, body@, final(self).instructions@)),
            r is Err ==> members_fail(body@),
        decreases body,
    {
        let ghost whole = body;
        let ghost orig = body@;
        let ghost s0 = self.instructions@;
        let mut structure: Table<Variant> = Table::new();
        structure.insert(TYPE_FIELD.to_owned(), Variant::Type(name));
        let ghost t0 = structure;
        let mut body = body;
        let mut k: usize = 0;
        let n = body.len();
        proof {
            assert(self.instructions@.take(s0.len() as int) =~= s0);
        }
        while body.len() > 0
            invariant
                k + body@.len() == orig.len(),
                n == orig.len(),
                body@ == orig.subrange(k as int, orig.len() as int),
                whole@ == orig,
                self.structure == old(self).structure,
                code_kept(self.instructions@, s0),
                s0 == old(self).instructions@,
                globals_of(t0, structure, orig, k as int, self.instructions@),
                forall|i: int| 0 <= i < k ==> #[trigger] module_member(orig[i]),
            decreases body.len(),
        {
            let member = body.remove(0);
            let ghost before = self.instructions@;
            let ghost st0 = structure;
            proof {
                assert(member == orig[k as int]);
                let pre = orig.subrange(0, k + 1);
                assert(pre.subrange(0, pre.len() - 1) =~= orig.subrange(0, k as int));
                assert(pre[pre.len() - 1] == orig[k as int]);
                if member_fails(orig[k as int]) {
                    lemma_members_fail_prefix(orig, k + 1);
                }
            }
            let ghost mv = member;
            match member {
                Syntax::Function { position, function_name, parameters, body: fbody, .. } => {
                    let text = match *function_name {
                        Syntax::Identifier { name, .. } => name,
                        Syntax::String(name) => name,
                        other => return Err(
                            CompilerError { error: CompilerErrorType::InvalidExpressionItem(Box::new(other)), position },
                        ),
                    };
                    let v = self.generate_function(position, text.clone(), parameters, fbody)?;
                    structure.insert(text, v);
                },
                Syntax::Class { position, class_name, attributes, constructor, methods } => {
                    let text = match *class_name {
                        Syntax::Identifier { name, .. } => name,
                        Syntax::String(name) => name,
                        other => return Err(
                            CompilerError { error: CompilerErrorType::InvalidExpressionItem(Box::new(other)), position },
                        ),
                    };
                    let v = self.generate_class(position, text.clone(), attributes, constructor, methods)?;
                    structure.insert(text, v);
                },
                Syntax::Enum { position, name: enum_name, items } => {
                    let text = match *enum_name {
                        Syntax::Identifier { name, .. } => name,
                        Syntax::String(name) => name,
                        other => return Err(
                            CompilerError { error: CompilerErrorType::InvalidExpressionItem(Box::new(other)), position },
                        ),
                    };
                    let v = self.generate_enum(position, text.clone(), items)?;
                    structure.insert(text, v);
                },
                Syntax::Module { position, module_name, body: mbody } => {
                    proof {
                        assert(decreases_to!(whole => whole@));
                        assert(decreases_to!(whole@ => whole@[k as int]));
                        assert(decreases_to!(mv => mv->Module_body));
                    }
                    let text = match *module_name {
                        Syntax::Identifier { name, .. } => name,
                        Syntax::String(name) => name,
                        other => return Err(
                            CompilerError { error: CompilerErrorType::InvalidExpressionItem(Box::new(other)), position },
                        ),
                    };
                    let v = self.generate_module(position, text.clone(), mbody)?;
                    structure.insert(text, v);
                },
                _ => return Err(CompilerError { error: CompilerErrorType::FeatureNotImplemented, position }),
            }
            proof {
                assert(self.instructions@.take(s0.len() as int) =~= before.take(s0.len() as int));
                let kk = k as int;
                assert forall|m: Seq<char>| #[trigger]
                    structure.spec_get(m) == match last_named(orig, kk + 1, m) {
                        Some(i) => structure.spec_get(m),
                        None => t0.spec_get(m),
                    } && (last_named(orig, kk + 1, m) matches Some(i) ==> structure.spec_get(m) matches Some(v) && global_kind(
                        orig[i],
                        v,
                    ) && (v matches Variant::FunctionPointer(fp) ==> fp < self.instructions@.len()
                        && self.instructions@[fp as int] is PushStackTrace)) by {
                    if item_name(orig[kk]) != Some(m) {
                        assert(structure.spec_get(m) == st0.spec_get(m));
                        if last_named(orig, kk, m) matches Some(i) {
                            if let Some(Variant::FunctionPointer(fp)) = st0.spec_get(m) {
                                assert(self.instructions@[fp as int] == before[fp as int]);
                            }
                        }
                    }
                }
            }
            k = k + 1;
        }
        proof {
            assert(orig.subrange(0, k as int) =~= orig);
            assert(k == orig.len());
        }
        Ok(Variant::Module(structure))
    }

    /// The globals of a script: its functions, modules, classes and enums by
    /// name. Other items are passed over.
    #[verifier::loop_isolation(false)]
    pub fn generate_script(&mut self, source: Vec<Syntax>) -> (r: Result<(), CompilerError>)
        ensures
            r is Err ==> script_fails(source@),
            r is Ok ==> code_kept(final(self).instructions@, old(self).instructions@),
            r is Ok ==> globals_of(old(self).structure, final(self).structure, source@, source@.len() as int, final(self).instructions@),
            r is Ok ==> forall|i: int| 0 <= i < source@.len() && (source@[i] is Function || source@[i] is Module || source@[i] is Class
                || source@[i] is Enum) ==> #[trigger] item_name(source@[i]) is Some,
    {
        let ghost s0 = self.instructions@;
        let ghost g0 = self.structure;
        let ghost orig = source@;
        let ghost mut k: int = 0;
        let mut source = source;
        proof {
            assert(self.instructions@.take(s0.len() as int) =~= s0);
        }
        while source.len() > 0
            invariant
                code_kept(self.instructions@, s0),
                s0 == old(self).instructions@,
                g0 == old(self).structure,
                0 <= k <= orig.len(),
                source@ == orig.subrange(k, orig.len() as int),
                globals_of(g0, self.structure, orig, k, self.instructions@),
                forall|i: int| 0 <= i < k && (orig[i] is Function || orig[i] is Module || orig[i] is Class || orig[i] is Enum)
                    ==> #[trigger] item_name(orig[i]) is Some,
            decreases source.len(),
        {
            let token = source.remove(0);
            proof {
                assert(token == orig[k]);
                let pre = orig.subrange(0, k + 1);
                assert(pre.subrange(0, pre.len() - 1) =~= orig.subrange(0, k));
                assert(pre[pre.len() - 1] == orig[k]);
                if (orig[k] is Function || orig[k] is Module || orig[k] is Class || orig[k] is Enum) && member_fails(orig[k]) {
                    lemma_script_fails_prefix(orig, k + 1);
                }
            }
            let ghost before = self.instructions@;
            let ghost st0 = self.structure;
            match token {
                Syntax::Function { position, function_name, parameters, body, .. } => {
                    let text = match *function_name {
                        Syntax::Identifier { name, .. } => name,
                        Syntax::String(name) => name,
                        other => return Err(
                            CompilerError { error: CompilerErrorType::InvalidExpressionItem(Box::new(other)), position },
                        ),
                    };
                    let v = self.generate_function(position, text.clone(), parameters, body)?;
                    self.structure.insert(text, v);
                },
                Syntax::Module { position, module_name, body } => {
                    let text = match *module_name {
                        Syntax::Identifier { name, .. } => name,
                        Syntax::String(name) => name,
                        other => return Err(
                            CompilerError { error: CompilerErrorType::InvalidExpressionItem(Box::new(other)), position },
                        ),
                    };
                    let v = self.generate_module(position, text.clone(), body)?;
                    self.structure.insert(text, v);
                },
                Syntax::Class { position, class_name, attributes, constructor, methods } => {
                    let text = match *class_name {
                        Syntax::Identifier { name, .. } => name,
                        Syntax::String(name) => name,
                        other => return Err(
                            CompilerError { error: CompilerErrorType::InvalidExpressionItem(Box::new(other)), position },
                        ),
                    };
                    let v = self.generate_class(position, text.clone(), attributes, constructor, methods)?;
                    self.structure.insert(text, v);
                },
                Syntax::Enum { position, name, items } => {
                    let text = match *name {
                        Syntax::Identifier { name, .. } => name,
                        Syntax::String(name) => name,
                        other => return Err(
                            CompilerError { error: CompilerErrorType::InvalidExpressionItem(Box::new(other)), position },
                        ),
                    };
                    let v = self.generate_enum(position, text.clone(), items)?;
                    self.structure.insert(text, v);
                },
                _ => {},
            }
            proof {
                assert(self.instructions@.take(s0.len() as int) =~= before.take(s0.len() as int));
                assert forall|n: Seq<char>| #[trigger]
                    self.structure.spec_get(n) == match last_named(orig, k + 1, n) {
                        Some(i) => self.structure.spec_get(n),
                        None => g0.spec_get(n),
                    } && (last_named(orig, k + 1, n) matches Some(i) ==> self.structure.spec_get(n) matches Some(v) && global_kind(
                        orig[i],
                        v,
                    ) && (v matches Variant::FunctionPointer(fp) ==> fp < self.instructions@.len() && self.instructions@[fp as int] is PushStackTrace)) by {
                    if item_name(orig[k]) != Some(n) {
                        assert(self.structure.spec_get(n) == st0.spec_get(n));
                        if last_named(orig, k, n) matches Some(i) {
                            if let Some(Variant::FunctionPointer(fp)) = st0.spec_get(n) {
                                assert(self.instructions@[fp as int] == before[fp as int]);
                            }
                        }
                    }
                }
                k = k + 1;
            }
        }
        proof {
            assert(orig.len() == k);
        }
        Ok(())
    }
}

/// A compiled program, how long code generation took, and its warnings.
#[derive(Debug)]
pub struct CodeGenerationResult {
    pub program: Program,
    pub codegen_time: Duration,
    pub warnings: Vec<CompilerWarning>,
}

/// Generates the program of a parsed script.
pub fn generate_program(source: Vec<Syntax>) -> (r: Result<CodeGenerationResult, CompilerError>)
    ensures
        r is Err ==> script_fails(source@),
        r matches Ok(c) ==> c.warnings@.len() == 0,
        r matches Ok(c) ==> program_of(c.program, source@),
{
    let compiler_timer = now();
    let mut s = Script::new();
    let ghost g0 = s.structure;
    let ghost items = source@;
    s.generate_script(source)?;
    let program = Program { instructions: s.instructions, globals: s.structure };
    proof {
        assert forall|n: Seq<char>| #[trigger] program.globals.spec_get(n) is Some implies last_named(items, items.len() as int, n) is Some by {
            if last_named(items, items.len() as int, n) is None {
                assert(program.globals.spec_get(n) == g0.spec_get(n));
            }
        }
    }
    Ok(CodeGenerationResult { program, codegen_time: elapsed(&compiler_timer), warnings: Vec::new() })
}

/// The globals of `p` are the named items of `items`, each under its name
/// (a later item replacing an earlier one of the same name), and nothing
/// else; a function global points at the start of the function's code.
/// Every function, module, class and enum of `items` has a name.
pub open spec fn program_of(p: Program, items: Seq<Syntax>) -> bool {
    &&& forall|n: Seq<char>| #[trigger] p.globals.spec_get(n) is Some ==> last_named(items, items.len() as int, n) is Some
    &&& globals_of(p.globals, p.globals, items, items.len() as int, p.instructions@)
    &&& forall|i: int| 0 <= i < items.len() && (items[i] is Function || items[i] is Module || items[i] is Class
        || items[i] is Enum) ==> #[trigger] item_name(items[i]) is Some
}

/// A compiled script with the time taken to parse and to generate it, and
/// the files it imported.
#[derive(Debug)]
pub struct CompilerResult {
    pub program: Program,
    pub compile_time: Duration,
    pub parser_time: Duration,
    pub source_files: Vec<String>,
}

/// Parses and compiles a script. A syntax error is reported as a compiler
/// error with the parser's kind and position, and a code-generation error
/// as itself: this function never panics, so where parsing or code
/// generation fails it returns that error rather than stopping the program.
/// An import is not replaced here, and its file adds nothing to the
/// program: `compile_with_imports` replaces each import by the items of its
/// file.
pub fn compile(source: &str) -> (r: Result<CompilerResult, CompilerError>)
    ensures
        r matches Ok(c) ==> c.source_files@.len() == 0,
        exists|p: Parser| #[trigger] p.reads_source(source@) && match g_script(
            p.spec_tokens(),
            p.spec_ends(),
            0,
            Seq::empty(),
        ) {
            None => r matches Err(e) && (e.error matches CompilerErrorType::ParseError(k) && text_rejected_with(
                source@,
                k,
                e.position,
            )),
            Some(es) => (r matches Ok(c) ==> exists|tree: Seq<Syntax>| #[trigger] are_trees(tree, es) && program_of(
                c.program,
                tree,
            )) && (r is Err ==> exists|tree: Seq<Syntax>| #[trigger] are_trees(tree, es) && script_fails(tree)),
        },
{
    let parse_result = match Parser::parse(source) {
        Ok(p) => p,
        Err(e) => {
            proof {
                assert(text_rejected_with(source@, e.error, e.position));
            }
            return Err(CompilerError { error: CompilerErrorType::ParseError(e.error), position: e.position });
        },
    };
    let ghost tree = parse_result.syntax_tree@;
    let compiler_result = generate_program(parse_result.syntax_tree)?;
    Ok(
        CompilerResult {
            program: compiler_result.program,
            compile_time: compiler_result.codegen_time,
            parser_time: parse_result.parser_time,
            source_files: Vec::new(),
        },
    )
}

} // verus!

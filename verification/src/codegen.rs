use vstd::prelude::*;

use crate::instruction::{Instruction, StackTrace};
use crate::syntax::{CompilerError, CompilerErrorType, Syntax, TokenPosition};
use crate::blocks::{
    arm_block, arms_block, case_block, cases_block, closed_loop, declared_block, ended, ends_inside, generated,
    jumps_added, jumps_inside, jumps_to_end, join, lemma_arms_block_none, lemma_cases_block_none, lemma_closed_loop,
    lemma_ended, lemma_ends_inside_join, lemma_jumps_added_push, lemma_jumps_added_trans, lemma_jumps_inside_join,
    lemma_jumps_inside_shift, lemma_loops_after_join, lemma_loops_after_same, lemma_loops_after_shift,
    lemma_stmts_block_none, loop_body, loops_after, name_text, plain, range_code, records, recoded, shifted, stmt_block,
    stmts_block, Block, params_block, lemma_params_block_none, function_code,
};
use crate::table::{find_in, Table};

verus! {

/// A local variable of a function and the slot that holds it.
#[derive(Debug, PartialEq)]
pub struct Variable {
    pub slot_index: usize,
    pub name: String,
}

/// The jumps of `break` and `continue` in a loop being compiled, to be
/// patched when the loop ends.
#[derive(Debug, PartialEq)]
pub struct IteratorTracker {
    pub breaks: Vec<usize>,
    pub continues: Vec<usize>,
}

/// The code generator of one function.
#[derive(Debug, PartialEq)]
pub struct Function {
    pub name: String,
    pub instructions: Vec<Instruction>,
    pub variables: Table<Variable>,
    pub iterators: Vec<IteratorTracker>,
}

/// The local variable named `k` among the entries `vars`.
pub open spec fn local_var(vars: Seq<(String, Variable)>, k: Seq<char>) -> Option<Variable> {
    match find_in(vars, k) {
        Some(i) => Some(vars[i].1),
        None => None,
    }
}

/// The instruction that loads `name`: its slot when it is a local variable,
/// the global otherwise.
pub open spec fn load_code(name: String, vars: Seq<(String, Variable)>) -> Instruction {
    match local_var(vars, name@) {
        Some(v) => Instruction::LoadLocalVariable(v.slot_index),
        None => Instruction::LoadGlobal(name),
    }
}

/// The code of both operands and then the operator.
pub open spec fn binary_code(a: Option<Seq<Instruction>>, b: Option<Seq<Instruction>>, op: Instruction) -> Option<
    Seq<Instruction>,
> {
    match (a, b) {
        (Some(x), Some(y)) => Some(x + y + seq![op]),
        _ => None,
    }
}

/// The instructions that leave the value of expression `e` on the stack,
/// the variables `vars` being local; `None` for what is no expression.
pub open spec fn expr_code(e: Syntax, vars: Seq<(String, Variable)>) -> Option<Seq<Instruction>>
    decreases e,
{
    match e {
        Syntax::Null => Some(seq![Instruction::PushNull]),
        Syntax::Integer(v) => Some(seq![Instruction::PushInteger(v)]),
        Syntax::Float(t) => Some(seq![Instruction::PushFloat(t)]),
        Syntax::Bool(b) => Some(seq![Instruction::PushBool(b)]),
        Syntax::String(s) => Some(seq![Instruction::PushString(s)]),
        Syntax::Identifier { name, .. } => Some(seq![load_code(name, vars)]),
        Syntax::MemberAccess { target, index, .. } => match expr_code(*target, vars) {
            None => None,
            Some(t) => match *index {
                Syntax::Identifier { name, .. } => Some(t.push(Instruction::LoadMember(name))),
                other => match expr_code(other, vars) {
                    Some(i) => Some(t + i),
                    None => None,
                },
            },
        },
        Syntax::StaticAccess { target, index, .. } => match expr_code(*target, vars) {
            None => None,
            Some(t) => match *index {
                Syntax::Identifier { name, .. } => Some(
                    t.push(Instruction::PushIdentifier(name)).push(Instruction::GetCollectionItem),
                ),
                other => match expr_code(other, vars) {
                    Some(i) => Some(t + i + seq![Instruction::GetCollectionItem]),
                    None => None,
                },
            },
        },
        Syntax::Array(items) => match list_code(items@, vars) {
            Some(c) => Some(c.push(Instruction::CreateCollectionAsArray(items@.len() as usize))),
            None => None,
        },
        Syntax::Dictionary(pairs) => match pairs_code(pairs@, vars) {
            Some(c) => Some(c.push(Instruction::CreateCollectionAsDictionary(pairs@.len() as usize))),
            None => None,
        },
        Syntax::Call { target, args, .. } => {
            let extra: int = if *target is MemberAccess {
                1
            } else {
                0
            };
            if args@.len() + extra > usize::MAX {
                None
            } else {
                match (expr_code(*target, vars), list_code(args@, vars)) {
                    (Some(t), Some(a)) => Some(t + a + seq![Instruction::Call((args@.len() + extra) as usize)]),
                    _ => None,
                }
            }
        },
        Syntax::Eq { expr1, expr2 } => binary_code(expr_code(*expr1, vars), expr_code(*expr2, vars), Instruction::Equal),
        Syntax::Ne { expr1, expr2 } => binary_code(
            expr_code(*expr1, vars),
            expr_code(*expr2, vars),
            Instruction::NotEqual,
        ),
        Syntax::Add { expr1, expr2 } => binary_code(expr_code(*expr1, vars), expr_code(*expr2, vars), Instruction::Add),
        Syntax::Sub { expr1, expr2 } => binary_code(expr_code(*expr1, vars), expr_code(*expr2, vars), Instruction::Sub),
        Syntax::Mul { expr1, expr2 } => binary_code(
            expr_code(*expr1, vars),
            expr_code(*expr2, vars),
            Instruction::Multiply,
        ),
        Syntax::Div { expr1, expr2 } => binary_code(
            expr_code(*expr1, vars),
            expr_code(*expr2, vars),
            Instruction::Divide,
        ),
        Syntax::Pow { expr1, expr2 } => binary_code(expr_code(*expr1, vars), expr_code(*expr2, vars), Instruction::Pow),
        Syntax::Lt { expr1, expr2 } => binary_code(
            expr_code(*expr1, vars),
            expr_code(*expr2, vars),
            Instruction::LessThan,
        ),
        Syntax::Le { expr1, expr2 } => binary_code(
            expr_code(*expr1, vars),
            expr_code(*expr2, vars),
            Instruction::LessThanOrEqual,
        ),
        Syntax::Gt { expr1, expr2 } => binary_code(
            expr_code(*expr1, vars),
            expr_code(*expr2, vars),
            Instruction::GreaterThan,
        ),
        Syntax::Ge { expr1, expr2 } => binary_code(
            expr_code(*expr1, vars),
            expr_code(*expr2, vars),
            Instruction::GreaterThanOrEqual,
        ),
        Syntax::And { expr1, expr2 } => binary_code(expr_code(*expr1, vars), expr_code(*expr2, vars), Instruction::And),
        Syntax::Or { expr1, expr2 } => binary_code(expr_code(*expr1, vars), expr_code(*expr2, vars), Instruction::Or),
        Syntax::Not { expr } => match expr_code(*expr, vars) {
            Some(c) => Some(c.push(Instruction::Not)),
            None => None,
        },
        _ => None,
    }
}

/// The code of each expression of `s` in turn.
pub open spec fn list_code(s: Seq<Syntax>, vars: Seq<(String, Variable)>) -> Option<Seq<Instruction>>
    decreases s,
{
    if s.len() == 0 {
        Some(Seq::empty())
    } else {
        match (list_code(s.subrange(0, s.len() - 1), vars), expr_code(s[s.len() - 1], vars)) {
            (Some(a), Some(b)) => Some(a + b),
            _ => None,
        }
    }
}

/// For each key and value of a dictionary literal in turn: the key, then
/// the code of the value.
pub open spec fn pairs_code(s: Seq<(String, Syntax)>, vars: Seq<(String, Variable)>) -> Option<Seq<Instruction>>
    decreases s,
{
    if s.len() == 0 {
        Some(Seq::empty())
    } else {
        match (pairs_code(s.subrange(0, s.len() - 1), vars), expr_code(s[s.len() - 1].1, vars)) {
            (Some(a), Some(b)) => Some(a + seq![Instruction::PushString(s[s.len() - 1].0)] + b),
            _ => None,
        }
    }
}

proof fn lemma_list_code_none(s: Seq<Syntax>, k: int, vars: Seq<(String, Variable)>)
    requires
        0 <= k <= s.len(),
        list_code(s.subrange(0, k), vars) is None,
    ensures
        list_code(s, vars) is None,
    decreases s.len() - k,
{
    if k < s.len() {
        let t = s.subrange(0, k + 1);
        assert(t.subrange(0, t.len() - 1) =~= s.subrange(0, k));
        lemma_list_code_none(s, k + 1, vars);
    } else {
        assert(s.subrange(0, k) =~= s);
    }
}

proof fn lemma_pairs_code_none(s: Seq<(String, Syntax)>, k: int, vars: Seq<(String, Variable)>)
    requires
        0 <= k <= s.len(),
        pairs_code(s.subrange(0, k), vars) is None,
    ensures
        pairs_code(s, vars) is None,
    decreases s.len() - k,
{
    if k < s.len() {
        let t = s.subrange(0, k + 1);
        assert(t.subrange(0, t.len() - 1) =~= s.subrange(0, k));
        lemma_pairs_code_none(s, k + 1, vars);
    } else {
        assert(s.subrange(0, k) =~= s);
    }
}

/// An error of code generation at `position`.
fn codegen_error(error: CompilerErrorType, position: TokenPosition) -> (r: CompilerError)
    ensures
        r.error == error,
        r.position == position,
{
    CompilerError { error, position }
}

impl Default for Function {
    /// A generator for a function with an empty name and no code yet.
    fn default() -> (r: Self)
        ensures
            r.instructions@.len() == 0,
            r.variables.spec_len() == 0,
            forall|k: Seq<char>| #[trigger] r.variables.spec_get(k) is None,
            r.iterators@.len() == 0,
            r.name@.len() == 0,
    {
        Function::empty(String::new())
    }
}

impl Function {
    /// A generator for a function named `name` with no code yet.
    pub fn empty(name: String) -> (r: Self)
        ensures
            r.instructions@.len() == 0,
            r.variables.spec_len() == 0,
            forall|k: Seq<char>| #[trigger] r.variables.spec_get(k) is None,
            r.iterators@.len() == 0,
            r.name == name,
    {
        Function { name, instructions: Vec::new(), variables: Table::new(), iterators: Vec::new() }
    }

    /// Appends the code of an expression.
    pub fn generate_expression(&mut self, position: TokenPosition, token: Box<Syntax>) -> (r: Result<(), CompilerError>)
        ensures
            final(self).variables == old(self).variables,
            final(self).name == old(self).name,
            final(self).iterators == old(self).iterators,
            match expr_code(*token, old(self).variables.spec_entries()) {
                Some(code) => r is Ok && final(self).instructions@ == old(self).instructions@ + code,
                None => r is Err,
            },
        decreases *token,
    {
        let ghost whole = *token;
        let ghost start = self.instructions@;
        let ghost vars = self.variables;
        match *token {
            Syntax::Null => {
                self.instructions.push(Instruction::PushNull);
                Ok(())
            },
            Syntax::Integer(v) => {
                self.instructions.push(Instruction::PushInteger(v));
                Ok(())
            },
            Syntax::Float(t) => {
                self.instructions.push(Instruction::PushFloat(t));
                Ok(())
            },
            Syntax::Bool(b) => {
                self.instructions.push(Instruction::PushBool(b));
                Ok(())
            },
            Syntax::String(s) => {
                self.instructions.push(Instruction::PushString(s));
                Ok(())
            },
            Syntax::Identifier { name, .. } => {
                let slot = match self.variables.get(name.as_str()) {
                    Some(v) => Some(v.slot_index),
                    None => None,
                };
                match slot {
                    Some(i) => self.instructions.push(Instruction::LoadLocalVariable(i)),
                    None => self.instructions.push(Instruction::LoadGlobal(name)),
                }
                Ok(())
            },
            Syntax::MemberAccess { position, target, index } => {
                self.generate_expression(position, target)?;
                match *index {
                    Syntax::Identifier { name, .. } => {
                        self.instructions.push(Instruction::LoadMember(name));
                        Ok(())
                    },
                    other => self.generate_expression(position, Box::new(other)),
                }
            },
            Syntax::StaticAccess { position, target, index } => {
                self.generate_expression(position, target)?;
                match *index {
                    Syntax::Identifier { name, .. } => {
                        self.instructions.push(Instruction::PushIdentifier(name));
                    },
                    other => {
                        self.generate_expression(position, Box::new(other))?;
                    },
                }
                self.instructions.push(Instruction::GetCollectionItem);
                Ok(())
            },
            Syntax::Array(elements) => {
                let array_size = elements.len();
                proof {
                    assert(decreases_to!(whole => whole->Array_0));
                }
                self.generate_list(position, elements)?;
                self.instructions.push(Instruction::CreateCollectionAsArray(array_size));
                Ok(())
            },
            Syntax::Dictionary(pairs) => {
                let dict_size = pairs.len();
                proof {
                    assert(decreases_to!(whole => whole->Dictionary_0));
                }
                self.generate_pairs(position, pairs)?;
                self.instructions.push(Instruction::CreateCollectionAsDictionary(dict_size));
                Ok(())
            },
            Syntax::Call { position, target, args } => {
                let is_member = match &*target {
                    Syntax::MemberAccess { .. } => true,
                    _ => false,
                };
                let arg_len = if is_member {
                    match args.len().checked_add(1) {
                        Some(n) => n,
                        None => return Err(codegen_error(CompilerErrorType::UnableToCompile, position)),
                    }
                } else {
                    args.len()
                };
                self.generate_expression(position, target)?;
                proof {
                    assert(decreases_to!(whole => whole->Call_args));
                }
                self.generate_list(position, args)?;
                self.instructions.push(Instruction::Call(arg_len));
                Ok(())
            },
            Syntax::Eq { expr1, expr2 } => {
                self.generate_expression(position, expr1)?;
                self.generate_expression(position, expr2)?;
                self.instructions.push(Instruction::Equal);
                Ok(())
            },
            Syntax::Ne { expr1, expr2 } => {
                self.generate_expression(position, expr1)?;
                self.generate_expression(position, expr2)?;
                self.instructions.push(Instruction::NotEqual);
                Ok(())
            },
            Syntax::Add { expr1, expr2 } => {
                self.generate_expression(position, expr1)?;
                self.generate_expression(position, expr2)?;
                self.instructions.push(Instruction::Add);
                Ok(())
            },
            Syntax::Sub { expr1, expr2 } => {
                self.generate_expression(position, expr1)?;
                self.generate_expression(position, expr2)?;
                self.instructions.push(Instruction::Sub);
                Ok(())
            },
            Syntax::Mul { expr1, expr2 } => {
                self.generate_expression(position, expr1)?;
                self.generate_expression(position, expr2)?;
                self.instructions.push(Instruction::Multiply);
                Ok(())
            },
            Syntax::Div { expr1, expr2 } => {
                self.generate_expression(position, expr1)?;
                self.generate_expression(position, expr2)?;
                self.instructions.push(Instruction::Divide);
                Ok(())
            },
            Syntax::Pow { expr1, expr2 } => {
                self.generate_expression(position, expr1)?;
                self.generate_expression(position, expr2)?;
                self.instructions.push(Instruction::Pow);
                Ok(())
            },
            Syntax::Lt { expr1, expr2 } => {
                self.generate_expression(position, expr1)?;
                self.generate_expression(position, expr2)?;
                self.instructions.push(Instruction::LessThan);
                Ok(())
            },
            Syntax::Le { expr1, expr2 } => {
                self.generate_expression(position, expr1)?;
                self.generate_expression(position, expr2)?;
                self.instructions.push(Instruction::LessThanOrEqual);
                Ok(())
            },
            Syntax::Gt { expr1, expr2 } => {
                self.generate_expression(position, expr1)?;
                self.generate_expression(position, expr2)?;
                self.instructions.push(Instruction::GreaterThan);
                Ok(())
            },
            Syntax::Ge { expr1, expr2 } => {
                self.generate_expression(position, expr1)?;
                self.generate_expression(position, expr2)?;
                self.instructions.push(Instruction::GreaterThanOrEqual);
                Ok(())
            },
            Syntax::And { expr1, expr2 } => {
                self.generate_expression(position, expr1)?;
                self.generate_expression(position, expr2)?;
                self.instructions.push(Instruction::And);
                Ok(())
            },
            Syntax::Or { expr1, expr2 } => {
                self.generate_expression(position, expr1)?;
                self.generate_expression(position, expr2)?;
                self.instructions.push(Instruction::Or);
                Ok(())
            },
            Syntax::Not { expr } => {
                self.generate_expression(position, expr)?;
                self.instructions.push(Instruction::Not);
                Ok(())
            },
            other => Err(codegen_error(CompilerErrorType::InvalidExpressionItem(Box::new(other)), position)),
        }
    }

    /// Appends the code of each expression in turn.
    #[verifier::loop_isolation(false)]
    fn generate_list(&mut self, position: TokenPosition, items: Vec<Syntax>) -> (r: Result<(), CompilerError>)
        ensures
            final(self).variables == old(self).variables,
            final(self).name == old(self).name,
            final(self).iterators == old(self).iterators,
            match list_code(items@, old(self).variables.spec_entries()) {
                Some(code) => r is Ok && final(self).instructions@ == old(self).instructions@ + code,
                None => r is Err,
            },
        decreases items,
    {
        let ghost orig = items@;
        let ghost whole = items;
        let n = items.len();
        let ghost start = self.instructions@;
        let ghost vars = self.variables;
        let mut items = items;
        let mut k: usize = 0;
        while items.len() > 0
            invariant
                k + items@.len() == orig.len(),
                n == orig.len(),
                items@ == orig.subrange(k as int, orig.len() as int),
                whole@ == orig,
                list_code(orig.subrange(0, k as int), vars.spec_entries()) matches Some(c) && self.instructions@ == start + c,
                self.variables == vars,
                self.name == old(self).name,
                self.iterators == old(self).iterators,
            decreases items.len(),
        {
            let item = items.remove(0);
            proof {
                assert(item == orig[k as int]);
                assert(decreases_to!(whole => whole@));
                assert(decreases_to!(whole@ => whole@[k as int]));
                let t = orig.subrange(0, k + 1);
                assert(t.subrange(0, t.len() - 1) =~= orig.subrange(0, k as int));
                assert(t[t.len() - 1] == item);
            }
            match self.generate_expression(position, Box::new(item)) {
                Ok(()) => {},
                Err(e) => {
                    proof {
                        lemma_list_code_none(orig, k + 1, vars.spec_entries());
                    }
                    return Err(e);
                },
            }
            proof {
                assert(self.instructions@ =~= start + list_code(orig.subrange(0, k + 1), vars.spec_entries())->0);
            }
            k = k + 1;
        }
        proof {
            assert(orig.subrange(0, k as int) =~= orig);
        }
        Ok(())
    }

    /// Appends, for each key and value in turn, the key and the code of the
    /// value.
    #[verifier::loop_isolation(false)]
    fn generate_pairs(&mut self, position: TokenPosition, pairs: Vec<(String, Syntax)>) -> (r: Result<(), CompilerError>)
        ensures
            final(self).variables == old(self).variables,
            final(self).name == old(self).name,
            final(self).iterators == old(self).iterators,
            match pairs_code(pairs@, old(self).variables.spec_entries()) {
                Some(code) => r is Ok && final(self).instructions@ == old(self).instructions@ + code,
                None => r is Err,
            },
        decreases pairs,
    {
        let ghost orig = pairs@;
        let ghost whole = pairs;
        let n = pairs.len();
        let ghost start = self.instructions@;
        let ghost vars = self.variables;
        let mut pairs = pairs;
        let mut k: usize = 0;
        while pairs.len() > 0
            invariant
                k + pairs@.len() == orig.len(),
                n == orig.len(),
                pairs@ == orig.subrange(k as int, orig.len() as int),
                whole@ == orig,
                pairs_code(orig.subrange(0, k as int), vars.spec_entries()) matches Some(c) && self.instructions@ == start + c,
                self.variables == vars,
                self.name == old(self).name,
                self.iterators == old(self).iterators,
            decreases pairs.len(),
        {
            let (key, value) = pairs.remove(0);
            proof {
                assert((key, value) == orig[k as int]);
                assert(decreases_to!(whole => whole@));
                assert(decreases_to!(whole@ => whole@[k as int]));
                assert(decreases_to!(whole@[k as int] => whole@[k as int].1));
                let t = orig.subrange(0, k + 1);
                assert(t.subrange(0, t.len() - 1) =~= orig.subrange(0, k as int));
                assert(t[t.len() - 1] == (key, value));
            }
            self.instructions.push(Instruction::PushString(key));
            match self.generate_expression(position, Box::new(value)) {
                Ok(()) => {},
                Err(e) => {
                    proof {
                        lemma_pairs_code_none(orig, k + 1, vars.spec_entries());
                    }
                    return Err(e);
                },
            }
            proof {
                assert(self.instructions@ =~= start + pairs_code(orig.subrange(0, k + 1), vars.spec_entries())->0);
            }
            k = k + 1;
        }
        proof {
            assert(orig.subrange(0, k as int) =~= orig);
        }
        Ok(())
    }
}

/// Generator `new` went on from `old`: the code before is kept, the
/// variables declared before keep their slots, the same name and as many
/// loops being compiled.
pub open spec fn extends(new: Function, old: Function) -> bool {
    &&& new.instructions@.len() >= old.instructions@.len()
    &&& new.instructions@.take(old.instructions@.len() as int) == old.instructions@
    &&& new.name == old.name
    &&& new.iterators@.len() == old.iterators@.len()
    &&& forall|k: Seq<char>| #[trigger] old.variables.spec_get(k) is Some ==> new.variables.spec_get(k) == old.variables.spec_get(k)
}

/// The name a syntax node gives a variable or an enum item.
pub open spec fn name_of(s: Syntax) -> Option<Seq<char>> {
    match s {
        Syntax::Identifier { name, .. } => Some(name@),
        Syntax::String(t) => Some(t@),
        _ => None,
    }
}

/// The text of an identifier or a string.
fn text_of(s: &Syntax) -> (r: Option<String>)
    ensures
        r == name_text(*s),
        match r {
            Some(t) => name_of(*s) == Some(t@),
            None => name_of(*s) is None,
        },
{
    match s {
        Syntax::Identifier { name, .. } => Some(name.clone()),
        Syntax::String(t) => Some(t.clone()),
        _ => None,
    }
}

/// Code appended that jumps out of no loop and leaves the rest as it was.
proof fn lemma_generated_plain(new: Function, old: Function, code: Seq<Instruction>)
    requires
        new.instructions@ == old.instructions@ + code,
        new.variables == old.variables,
        new.name == old.name,
        new.iterators == old.iterators,
    ensures
        generated(new, old, plain(code, old.variables.spec_entries())),
{
    lemma_loops_after_same(old.iterators@, plain(code, old.variables.spec_entries()), old.instructions@.len() as int);
}

/// A block that jumps out of no loop, appended.
proof fn lemma_generated_block(new: Function, old: Function, b: Block)
    requires
        new.instructions@ == old.instructions@ + b.code,
        new.variables.spec_entries() == b.vars,
        new.name == old.name,
        new.iterators@ == old.iterators@,
        b.breaks.len() == 0,
        b.continues.len() == 0,
    ensures
        generated(new, old, b),
{
    lemma_loops_after_same(old.iterators@, b, old.instructions@.len() as int);
}

proof fn lemma_extends_trans(a: Function, b: Function, c: Function)
    requires
        extends(b, a),
        extends(c, b),
    ensures
        extends(c, a),
{
    assert(c.instructions@.take(a.instructions@.len() as int) =~= b.instructions@.take(a.instructions@.len() as int));
}

proof fn lemma_extends_refl(a: Function)
    ensures
        extends(a, a),
{
    assert(a.instructions@.take(a.instructions@.len() as int) =~= a.instructions@);
}

impl Function {
    /// Declares a variable in the next free slot and, when it has a value,
    /// stores the value there.
    pub fn generate_variable_with_value(&mut self, position: TokenPosition, name: Box<Syntax>, value: Option<Box<Syntax>>) -> (r:
        Result<(), CompilerError>)
        ensures
            r is Ok ==> extends(*final(self), *old(self)),
            r is Ok ==> (name_of(*name) matches Some(n) && !old(self).variables.spec_contains(n)
                && final(self).variables.spec_get(n) is Some
                && final(self).variables.spec_get(n)->0.slot_index == old(self).variables.spec_len()),
            name_of(*name) matches Some(n) && old(self).variables.spec_contains(n) ==> (r matches Err(e) && e.error is VariableAlreadyDeclared),
            name_of(*name) is None ==> r is Err,
            r is Ok && value is None ==> final(self).instructions@ == old(self).instructions@,
            r is Ok && value is Some ==> (expr_code(*value->0, final(self).variables.spec_entries()) matches Some(c)
                && final(self).instructions@ == old(self).instructions@ + c + seq![
                Instruction::MoveToLocalVariable(old(self).variables.spec_len() as usize),
            ]),
            final(self).name == old(self).name,
            final(self).iterators == old(self).iterators,
            match declared_block(*name, value, old(self).variables.spec_entries(), false) {
                Some(b) => r is Ok && final(self).instructions@ == old(self).instructions@ + b.code
                    && final(self).variables.spec_entries() == b.vars,
                None => r is Err,
            },
    {
        let text = match text_of(&name) {
            Some(t) => t,
            None => return Err(codegen_error(CompilerErrorType::InvalidExpressionItem(name), position)),
        };
        if self.variables.contains_key(text.as_str()) {
            return Err(codegen_error(CompilerErrorType::VariableAlreadyDeclared(text), position));
        }
        let slot = self.variables.len();
        let ghost before = *self;
        self.variables.insert(text.clone(), Variable { slot_index: slot, name: text });
        proof {
            lemma_extends_refl(before);
        }
        if let Some(expr) = value {
            self.generate_expression(position, expr)?;
            self.instructions.push(Instruction::MoveToLocalVariable(slot));
            proof {
                assert(self.instructions@.take(before.instructions@.len() as int) =~= before.instructions@);
            }
        }
        Ok(())
    }

    /// Declares a variable; without a value it starts as `null`.
    pub fn generate_variable_with_value_else_default(&mut self, position: TokenPosition, name: Box<Syntax>, value: Option<
        Box<Syntax>,
    >) -> (r: Result<(), CompilerError>)
        ensures
            r is Ok ==> extends(*final(self), *old(self)),
            name_of(*name) matches Some(n) && old(self).variables.spec_contains(n) ==> (r matches Err(e) && e.error is VariableAlreadyDeclared),
            name_of(*name) is None ==> r is Err,
            r is Ok && value is None ==> final(self).instructions@ == old(self).instructions@ + seq![
                Instruction::PushNull,
                Instruction::MoveToLocalVariable(old(self).variables.spec_len() as usize),
            ],
            final(self).name == old(self).name,
            final(self).iterators == old(self).iterators,
            match declared_block(*name, value, old(self).variables.spec_entries(), true) {
                Some(b) => r is Ok && final(self).instructions@ == old(self).instructions@ + b.code
                    && final(self).variables.spec_entries() == b.vars,
                None => r is Err,
            },
    {
        let has_value = value.is_some();
        let key = text_of(&name);
        self.generate_variable_with_value(position, name, value)?;
        let slot = match key {
            Some(k) => match self.variables.get(k.as_str()) {
                Some(v) => v.slot_index,
                None => 0,
            },
            None => 0,
        };
        if !has_value {
            let ghost before = self.instructions@;
            self.instructions.push(Instruction::PushNull);
            self.instructions.push(Instruction::MoveToLocalVariable(slot));
            proof {
                assert(self.instructions@.take(old(self).instructions@.len() as int) =~= old(self).instructions@);
            }
        }
        Ok(())
    }
}

/// Expressions of the same code, one by one, have the same code together.
proof fn lemma_list_code_same(a: Seq<Syntax>, b: Seq<Syntax>, vars: Seq<(String, Variable)>)
    requires
        a.len() == b.len(),
        forall|i: int| 0 <= i < a.len() ==> #[trigger] expr_code(a[i], vars) == expr_code(b[i], vars),
    ensures
        list_code(a, vars) == list_code(b, vars),
    decreases a.len(),
{
    if a.len() > 0 {
        let n = a.len() - 1;
        let a1 = a.subrange(0, n as int);
        let b1 = b.subrange(0, n as int);
        assert forall|i: int| 0 <= i < a1.len() implies #[trigger] expr_code(a1[i], vars) == expr_code(b1[i], vars) by {
            assert(expr_code(a[i], vars) == expr_code(b[i], vars));
        }
        lemma_list_code_same(a1, b1, vars);
        assert(expr_code(a[n as int], vars) == expr_code(b[n as int], vars));
    }
}

/// Entries with the same keys and values of the same code have the same code
/// together.
proof fn lemma_pairs_code_same(a: Seq<(String, Syntax)>, b: Seq<(String, Syntax)>, vars: Seq<(String, Variable)>)
    requires
        a.len() == b.len(),
        forall|i: int| 0 <= i < a.len() ==> #[trigger] a[i].0 == b[i].0,
        forall|i: int| 0 <= i < a.len() ==> #[trigger] expr_code(a[i].1, vars) == expr_code(b[i].1, vars),
    ensures
        pairs_code(a, vars) == pairs_code(b, vars),
    decreases a.len(),
{
    if a.len() > 0 {
        let n = a.len() - 1;
        let a1 = a.subrange(0, n as int);
        let b1 = b.subrange(0, n as int);
        assert forall|i: int| 0 <= i < a1.len() implies #[trigger] a1[i].0 == b1[i].0 by {
            assert(a[i].0 == b[i].0);
        }
        assert forall|i: int| 0 <= i < a1.len() implies #[trigger] expr_code(a1[i].1, vars) == expr_code(b1[i].1, vars) by {
            assert(expr_code(a[i].1, vars) == expr_code(b[i].1, vars));
        }
        lemma_pairs_code_same(a1, b1, vars);
        assert(a[n as int].0 == b[n as int].0);
        assert(expr_code(a[n as int].1, vars) == expr_code(b[n as int].1, vars));
    }
}

/// A copy of the expressions in `items`.
fn copy_expressions(items: &Vec<Syntax>) -> (r: Vec<Syntax>)
    ensures
        r@.len() == items@.len(),
        forall|i: int, vars: Seq<(String, Variable)>|
            0 <= i < items@.len() ==> #[trigger] expr_code(r@[i], vars) == expr_code(items@[i], vars),
    decreases items, 0nat,
{
    let mut out: Vec<Syntax> = Vec::new();
    let mut i: usize = 0;
    while i < items.len()
        invariant
            i <= items@.len(),
            out@.len() == i,
            forall|j: int, vars: Seq<(String, Variable)>|
                0 <= j < i ==> #[trigger] expr_code(out@[j], vars) == expr_code(items@[j], vars),
        decreases items.len() - i,
    {
        proof {
            assert(decreases_to!(items => items@));
            assert(decreases_to!(items@ => items@[i as int]));
        }
        out.push(copy_expression(&items[i]));
        i = i + 1;
    }
    out
}

/// A copy of the entries of a dictionary literal.
fn copy_pairs(pairs: &Vec<(String, Syntax)>) -> (r: Vec<(String, Syntax)>)
    ensures
        r@.len() == pairs@.len(),
        forall|i: int| 0 <= i < pairs@.len() ==> #[trigger] r@[i].0 == pairs@[i].0,
        forall|i: int, vars: Seq<(String, Variable)>|
            0 <= i < pairs@.len() ==> #[trigger] expr_code(r@[i].1, vars) == expr_code(pairs@[i].1, vars),
    decreases pairs, 0nat,
{
    let mut out: Vec<(String, Syntax)> = Vec::new();
    let mut i: usize = 0;
    while i < pairs.len()
        invariant
            i <= pairs@.len(),
            out@.len() == i,
            forall|j: int| 0 <= j < i ==> #[trigger] out@[j].0 == pairs@[j].0,
            forall|j: int, vars: Seq<(String, Variable)>|
                0 <= j < i ==> #[trigger] expr_code(out@[j].1, vars) == expr_code(pairs@[j].1, vars),
        decreases pairs.len() - i,
    {
        proof {
            assert(decreases_to!(pairs => pairs@));
            assert(decreases_to!(pairs@ => pairs@[i as int]));
            assert(decreases_to!(pairs@[i as int] => pairs@[i as int].1));
        }
        let value = copy_expression(&pairs[i].1);
        out.push((pairs[i].0.clone(), value));
        i = i + 1;
    }
    out
}

/// A copy of an expression. What is no expression becomes `break`, which
/// code generation refuses as an expression in the same way.
fn copy_expression(s: &Syntax) -> (r: Syntax)
    ensures
        forall|vars: Seq<(String, Variable)>| #[trigger] expr_code(r, vars) == expr_code(*s, vars),
        *s is Identifier ==> r == *s,
        r is Identifier ==> *s is Identifier,
        (r is MemberAccess) == (*s is MemberAccess),
    decreases s, 1nat,
{
    match s {
        Syntax::Null => Syntax::Null,
        Syntax::Integer(v) => Syntax::Integer(*v),
        Syntax::Float(t) => Syntax::Float(t.clone()),
        Syntax::Bool(b) => Syntax::Bool(*b),
        Syntax::String(t) => Syntax::String(t.clone()),
        Syntax::Identifier { position, name } => Syntax::Identifier { position: *position, name: name.clone() },
        Syntax::MemberAccess { position, target, index } => {
            let t = copy_expression(target);
            let i = copy_expression(index);
            let r = Syntax::MemberAccess { position: *position, target: Box::new(t), index: Box::new(i) };
            proof {
                assert forall|vars: Seq<(String, Variable)>| #[trigger] expr_code(r, vars) == expr_code(*s, vars) by {
                    assert(expr_code(t, vars) == expr_code(**target, vars));
                    assert(expr_code(i, vars) == expr_code(**index, vars));
                }
            }
            r
        },
        Syntax::StaticAccess { position, target, index } => {
            let t = copy_expression(target);
            let i = copy_expression(index);
            let r = Syntax::StaticAccess { position: *position, target: Box::new(t), index: Box::new(i) };
            proof {
                assert forall|vars: Seq<(String, Variable)>| #[trigger] expr_code(r, vars) == expr_code(*s, vars) by {
                    assert(expr_code(t, vars) == expr_code(**target, vars));
                    assert(expr_code(i, vars) == expr_code(**index, vars));
                }
            }
            r
        },
        Syntax::ArrayAccess { position, target, index } => Syntax::ArrayAccess {
            position: *position,
            target: Box::new(copy_expression(target)),
            index: Box::new(copy_expression(index)),
        },
        Syntax::Array(items) => {
            let c = copy_expressions(items);
            proof {
                assert forall|vars: Seq<(String, Variable)>| #[trigger] list_code(c@, vars) == list_code(items@, vars) by {
                    lemma_list_code_same(c@, items@, vars);
                }
            }
            let r = Syntax::Array(c);
            proof {
                assert forall|vars: Seq<(String, Variable)>| #[trigger] expr_code(r, vars) == expr_code(*s, vars) by {
                    assert(list_code(c@, vars) == list_code(items@, vars));
                }
            }
            r
        },
        Syntax::Dictionary(pairs) => {
            let c = copy_pairs(pairs);
            proof {
                assert forall|vars: Seq<(String, Variable)>| #[trigger] pairs_code(c@, vars) == pairs_code(pairs@, vars) by {
                    lemma_pairs_code_same(c@, pairs@, vars);
                }
            }
            let r = Syntax::Dictionary(c);
            proof {
                assert forall|vars: Seq<(String, Variable)>| #[trigger] expr_code(r, vars) == expr_code(*s, vars) by {
                    assert(pairs_code(c@, vars) == pairs_code(pairs@, vars));
                }
            }
            r
        },
        Syntax::Call { position, target, args } => {
            let t = copy_expression(target);
            let c = copy_expressions(args);
            proof {
                assert forall|vars: Seq<(String, Variable)>| #[trigger] list_code(c@, vars) == list_code(args@, vars) by {
                    lemma_list_code_same(c@, args@, vars);
                }
            }
            let r = Syntax::Call { position: *position, target: Box::new(t), args: c };
            proof {
                assert forall|vars: Seq<(String, Variable)>| #[trigger] expr_code(r, vars) == expr_code(*s, vars) by {
                    assert(list_code(c@, vars) == list_code(args@, vars));
                    assert(expr_code(t, vars) == expr_code(**target, vars));
                }
            }
            r
        },
        Syntax::NewObject { position, target, args } => Syntax::NewObject {
            position: *position,
            target: Box::new(copy_expression(target)),
            args: copy_expressions(args),
        },
        Syntax::Not { expr } => {
            let a = copy_expression(expr);
            let r = Syntax::Not { expr: Box::new(a) };
            proof {
                assert forall|vars: Seq<(String, Variable)>| #[trigger] expr_code(r, vars) == expr_code(*s, vars) by {
                    assert(expr_code(a, vars) == expr_code(**expr, vars));
                }
            }
            r
        },
        Syntax::And { expr1, expr2 } => {
            let a = copy_expression(expr1);
            let b = copy_expression(expr2);
            let r = Syntax::And { expr1: Box::new(a), expr2: Box::new(b) };
            proof {
                assert forall|vars: Seq<(String, Variable)>| #[trigger] expr_code(r, vars) == expr_code(*s, vars) by {
                    assert(expr_code(a, vars) == expr_code(**expr1, vars));
                    assert(expr_code(b, vars) == expr_code(**expr2, vars));
                }
            }
            r
        },
        Syntax::Or { expr1, expr2 } => {
            let a = copy_expression(expr1);
            let b = copy_expression(expr2);
            let r = Syntax::Or { expr1: Box::new(a), expr2: Box::new(b) };
            proof {
                assert forall|vars: Seq<(String, Variable)>| #[trigger] expr_code(r, vars) == expr_code(*s, vars) by {
                    assert(expr_code(a, vars) == expr_code(**expr1, vars));
                    assert(expr_code(b, vars) == expr_code(**expr2, vars));
                }
            }
            r
        },
        Syntax::Eq { expr1, expr2 } => {
            let a = copy_expression(expr1);
            let b = copy_expression(expr2);
            let r = Syntax::Eq { expr1: Box::new(a), expr2: Box::new(b) };
            proof {
                assert forall|vars: Seq<(String, Variable)>| #[trigger] expr_code(r, vars) == expr_code(*s, vars) by {
                    assert(expr_code(a, vars) == expr_code(**expr1, vars));
                    assert(expr_code(b, vars) == expr_code(**expr2, vars));
                }
            }
            r
        },
        Syntax::Ne { expr1, expr2 } => {
            let a = copy_expression(expr1);
            let b = copy_expression(expr2);
            let r = Syntax::Ne { expr1: Box::new(a), expr2: Box::new(b) };
            proof {
                assert forall|vars: Seq<(String, Variable)>| #[trigger] expr_code(r, vars) == expr_code(*s, vars) by {
                    assert(expr_code(a, vars) == expr_code(**expr1, vars));
                    assert(expr_code(b, vars) == expr_code(**expr2, vars));
                }
            }
            r
        },
        Syntax::Lt { expr1, expr2 } => {
            let a = copy_expression(expr1);
            let b = copy_expression(expr2);
            let r = Syntax::Lt { expr1: Box::new(a), expr2: Box::new(b) };
            proof {
                assert forall|vars: Seq<(String, Variable)>| #[trigger] expr_code(r, vars) == expr_code(*s, vars) by {
                    assert(expr_code(a, vars) == expr_code(**expr1, vars));
                    assert(expr_code(b, vars) == expr_code(**expr2, vars));
                }
            }
            r
        },
        Syntax::Le { expr1, expr2 } => {
            let a = copy_expression(expr1);
            let b = copy_expression(expr2);
            let r = Syntax::Le { expr1: Box::new(a), expr2: Box::new(b) };
            proof {
                assert forall|vars: Seq<(String, Variable)>| #[trigger] expr_code(r, vars) == expr_code(*s, vars) by {
                    assert(expr_code(a, vars) == expr_code(**expr1, vars));
                    assert(expr_code(b, vars) == expr_code(**expr2, vars));
                }
            }
            r
        },
        Syntax::Gt { expr1, expr2 } => {
            let a = copy_expression(expr1);
            let b = copy_expression(expr2);
            let r = Syntax::Gt { expr1: Box::new(a), expr2: Box::new(b) };
            proof {
                assert forall|vars: Seq<(String, Variable)>| #[trigger] expr_code(r, vars) == expr_code(*s, vars) by {
                    assert(expr_code(a, vars) == expr_code(**expr1, vars));
                    assert(expr_code(b, vars) == expr_code(**expr2, vars));
                }
            }
            r
        },
        Syntax::Ge { expr1, expr2 } => {
            let a = copy_expression(expr1);
            let b = copy_expression(expr2);
            let r = Syntax::Ge { expr1: Box::new(a), expr2: Box::new(b) };
            proof {
                assert forall|vars: Seq<(String, Variable)>| #[trigger] expr_code(r, vars) == expr_code(*s, vars) by {
                    assert(expr_code(a, vars) == expr_code(**expr1, vars));
                    assert(expr_code(b, vars) == expr_code(**expr2, vars));
                }
            }
            r
        },
        Syntax::Add { expr1, expr2 } => {
            let a = copy_expression(expr1);
            let b = copy_expression(expr2);
            let r = Syntax::Add { expr1: Box::new(a), expr2: Box::new(b) };
            proof {
                assert forall|vars: Seq<(String, Variable)>| #[trigger] expr_code(r, vars) == expr_code(*s, vars) by {
                    assert(expr_code(a, vars) == expr_code(**expr1, vars));
                    assert(expr_code(b, vars) == expr_code(**expr2, vars));
                }
            }
            r
        },
        Syntax::Sub { expr1, expr2 } => {
            let a = copy_expression(expr1);
            let b = copy_expression(expr2);
            let r = Syntax::Sub { expr1: Box::new(a), expr2: Box::new(b) };
            proof {
                assert forall|vars: Seq<(String, Variable)>| #[trigger] expr_code(r, vars) == expr_code(*s, vars) by {
                    assert(expr_code(a, vars) == expr_code(**expr1, vars));
                    assert(expr_code(b, vars) == expr_code(**expr2, vars));
                }
            }
            r
        },
        Syntax::Mul { expr1, expr2 } => {
            let a = copy_expression(expr1);
            let b = copy_expression(expr2);
            let r = Syntax::Mul { expr1: Box::new(a), expr2: Box::new(b) };
            proof {
                assert forall|vars: Seq<(String, Variable)>| #[trigger] expr_code(r, vars) == expr_code(*s, vars) by {
                    assert(expr_code(a, vars) == expr_code(**expr1, vars));
                    assert(expr_code(b, vars) == expr_code(**expr2, vars));
                }
            }
            r
        },
        Syntax::Div { expr1, expr2 } => {
            let a = copy_expression(expr1);
            let b = copy_expression(expr2);
            let r = Syntax::Div { expr1: Box::new(a), expr2: Box::new(b) };
            proof {
                assert forall|vars: Seq<(String, Variable)>| #[trigger] expr_code(r, vars) == expr_code(*s, vars) by {
                    assert(expr_code(a, vars) == expr_code(**expr1, vars));
                    assert(expr_code(b, vars) == expr_code(**expr2, vars));
                }
            }
            r
        },
        Syntax::Pow { expr1, expr2 } => {
            let a = copy_expression(expr1);
            let b = copy_expression(expr2);
            let r = Syntax::Pow { expr1: Box::new(a), expr2: Box::new(b) };
            proof {
                assert forall|vars: Seq<(String, Variable)>| #[trigger] expr_code(r, vars) == expr_code(*s, vars) by {
                    assert(expr_code(a, vars) == expr_code(**expr1, vars));
                    assert(expr_code(b, vars) == expr_code(**expr2, vars));
                }
            }
            r
        },
        Syntax::Break { position } => Syntax::Break { position: *position },
        _ => {
            let r = Syntax::Break { position: TokenPosition { line: 0, column: 0 } };
            proof {
                assert forall|vars: Seq<(String, Variable)>| #[trigger] expr_code(r, vars) == expr_code(*s, vars) by {
                    assert(expr_code(*s, vars) is None);
                }
            }
            r
        },
    }
}

/// The code of an assignment to `target`: a local variable, or a member of
/// an object.
pub open spec fn assign_code(target: Syntax, value: Syntax, vars: Seq<(String, Variable)>) -> Option<Seq<Instruction>> {
    match target {
        Syntax::Identifier { name, .. } => match local_var(vars, name@) {
            Some(v) => match expr_code(value, vars) {
                Some(c) => Some(c.push(Instruction::MoveToLocalVariable(v.slot_index))),
                None => None,
            },
            None => None,
        },
        Syntax::MemberAccess { target: t, index, .. } => {
            let index_code = match *index {
                Syntax::Identifier { name, .. } => Some(seq![Instruction::PushIdentifier(name)]),
                other => expr_code(other, vars),
            };
            match (expr_code(*t, vars), index_code, expr_code(value, vars)) {
                (Some(a), Some(b), Some(c)) => Some(a + b + c + seq![Instruction::SetCollectionItem]),
                _ => None,
            }
        },
        _ => None,
    }
}

impl Function {
    /// Appends the code of `target = value`.
    pub fn generate_assignment(&mut self, position: TokenPosition, target: Box<Syntax>, value: Box<Syntax>) -> (r: Result<
        (),
        CompilerError,
    >)
        ensures
            final(self).variables == old(self).variables,
            final(self).name == old(self).name,
            final(self).iterators == old(self).iterators,
            match assign_code(*target, *value, old(self).variables.spec_entries()) {
                Some(code) => r is Ok && final(self).instructions@ == old(self).instructions@ + code,
                None => r is Err,
            },
    {
        let ghost t0 = *target;
        match *target {
            Syntax::Identifier { position, name } => {
                let slot = match self.variables.get(name.as_str()) {
                    Some(v) => v.slot_index,
                    None => return Err(codegen_error(CompilerErrorType::VariableNotDeclared(name), position)),
                };
                self.generate_expression(position, value)?;
                self.instructions.push(Instruction::MoveToLocalVariable(slot));
                Ok(())
            },
            Syntax::MemberAccess { position, target, index } => {
                let ghost start = self.instructions@;
                self.generate_expression(position, target)?;
                let ghost a = self.instructions@;
                match *index {
                    Syntax::Identifier { name, .. } => self.instructions.push(Instruction::PushIdentifier(name)),
                    other => self.generate_expression(position, Box::new(other))?,
                }
                let ghost b = self.instructions@;
                match self.generate_expression(position, value) {
                    Ok(()) => {},
                    Err(e) => {
                        return Err(e);
                    },
                }
                self.instructions.push(Instruction::SetCollectionItem);
                proof {
                    let ac = a.subrange(start.len() as int, a.len() as int);
                    let bc = b.subrange(a.len() as int, b.len() as int);
                    assert(a =~= start + ac);
                    assert(b =~= a + bc);
                }
                Ok(())
            },
            other => Err(codegen_error(CompilerErrorType::UnableToAssignItem(Box::new(other)), position)),
        }
    }

    /// Appends the code of `print expression`.
    fn generate_print(&mut self, position: TokenPosition, expr: Box<Syntax>) -> (r: Result<(), CompilerError>)
        ensures
            final(self).variables == old(self).variables,
            final(self).name == old(self).name,
            final(self).iterators == old(self).iterators,
            match expr_code(*expr, old(self).variables.spec_entries()) {
                Some(code) => r is Ok && final(self).instructions@ == old(self).instructions@ + code + seq![Instruction::Print],
                None => r is Err,
            },
    {
        self.generate_expression(position, expr)?;
        self.instructions.push(Instruction::Print);
        Ok(())
    }

    /// Appends the code of `sleep expression`.
    fn generate_sleep(&mut self, position: TokenPosition, expr: Box<Syntax>) -> (r: Result<(), CompilerError>)
        ensures
            final(self).variables == old(self).variables,
            final(self).name == old(self).name,
            final(self).iterators == old(self).iterators,
            match expr_code(*expr, old(self).variables.spec_entries()) {
                Some(code) => r is Ok && final(self).instructions@ == old(self).instructions@ + code + seq![Instruction::Sleep],
                None => r is Err,
            },
    {
        self.generate_expression(position, expr)?;
        self.instructions.push(Instruction::Sleep);
        Ok(())
    }

    /// Appends the code of `return [expression]`.
    fn generate_return(&mut self, position: TokenPosition, expr: Option<Box<Syntax>>) -> (r: Result<(), CompilerError>)
        ensures
            final(self).variables == old(self).variables,
            final(self).name == old(self).name,
            final(self).iterators == old(self).iterators,
            match expr {
                Some(e) => match expr_code(*e, old(self).variables.spec_entries()) {
                    Some(code) => r is Ok && final(self).instructions@ == old(self).instructions@ + code + seq![
                        Instruction::Return { with_value: true },
                    ],
                    None => r is Err,
                },
                None => r is Ok && final(self).instructions@ == old(self).instructions@.push(
                    Instruction::Return { with_value: false },
                ),
            },
    {
        match expr {
            Some(expr) => {
                self.generate_expression(position, expr)?;
                self.instructions.push(Instruction::Return { with_value: true });
            },
            None => {
                self.instructions.push(Instruction::Return { with_value: false });
            },
        }
        Ok(())
    }

    /// Appends the instruction that pushes the stack trace of this function.
    pub fn generate_stack_trace_push(&mut self, line: usize) -> (r: Result<(), CompilerError>)
        ensures
            r is Ok,
            final(self).variables == old(self).variables,
            final(self).name == old(self).name,
            final(self).iterators == old(self).iterators,
            final(self).instructions@.len() == old(self).instructions@.len() + 1,
            final(self).instructions@.take(old(self).instructions@.len() as int) == old(self).instructions@,
            final(self).instructions@.last() matches Instruction::PushStackTrace(t) && t.line == line && t.function@
                == old(self).name@ && t.file@ == "unknown"@,
    {
        let t = StackTrace { line, file: "unknown".to_owned(), function: self.name.clone() };
        self.instructions.push(Instruction::PushStackTrace(t));
        proof {
            assert(self.instructions@.take(old(self).instructions@.len() as int) =~= old(self).instructions@);
        }
        Ok(())
    }

    /// Appends the instruction that pops the stack trace.
    pub fn generate_stack_trace_pop(&mut self) -> (r: Result<(), CompilerError>)
        ensures
            r is Ok,
            final(self).variables == old(self).variables,
            final(self).name == old(self).name,
            final(self).iterators == old(self).iterators,
            final(self).instructions@ == old(self).instructions@.push(Instruction::PopStackTrace),
    {
        self.instructions.push(Instruction::PopStackTrace);
        Ok(())
    }
}

impl Function {
    /// Records a jump out of the innermost loop, patched when the loop ends.
    fn generate_break(&mut self, position: TokenPosition) -> (r: Result<(), CompilerError>)
        ensures
            old(self).iterators@.len() == 0 ==> (r matches Err(e) && e.error == CompilerErrorType::BreakOutsideOfLoop),
            old(self).iterators@.len() > 0 ==> r is Ok && extends(*final(self), *old(self))
                && final(self).instructions@ == old(self).instructions@.push(Instruction::NoOperation)
                && final(self).variables == old(self).variables,
            old(self).iterators@.len() > 0 ==> generated(
                *final(self),
                *old(self),
                (Block {
                    code: seq![Instruction::NoOperation],
                    vars: old(self).variables.spec_entries(),
                    breaks: seq![0], continues: Seq::empty(),
                }),
            ),
    {
        match self.iterators.pop() {
            Some(mut iter) => {
                let ghost top = iter;
                iter.breaks.push(self.instructions.len());
                self.iterators.push(iter);
                self.instructions.push(Instruction::NoOperation);
                proof {
                    assert(self.instructions@.take(old(self).instructions@.len() as int) =~= old(self).instructions@);
                    assert(self.instructions@ =~= old(self).instructions@ + seq![Instruction::NoOperation]);
                    let ni = self.iterators@;
                    let oi = old(self).iterators@;
                    assert(top == oi.last());
                    assert(ni.last() == iter);
                    assert forall|i: int| 0 <= i < oi.len() - 1 implies #[trigger] ni[i] == oi[i] by {
                        assert(ni[i] == oi.drop_last()[i]);
                    }
                    assert(ni.last().breaks@.len() == oi.last().breaks@.len() + 1);
                }
                Ok(())
            },
            None => Err(codegen_error(CompilerErrorType::BreakOutsideOfLoop, position)),
        }
    }

    /// Records a jump back to the start of the innermost loop, patched when
    /// the loop ends.
    fn generate_continue(&mut self, position: TokenPosition) -> (r: Result<(), CompilerError>)
        ensures
            old(self).iterators@.len() == 0 ==> (r matches Err(e) && e.error == CompilerErrorType::ContinueOutsideOfLoop),
            old(self).iterators@.len() > 0 ==> r is Ok && extends(*final(self), *old(self))
                && final(self).instructions@ == old(self).instructions@.push(Instruction::NoOperation)
                && final(self).variables == old(self).variables,
            old(self).iterators@.len() > 0 ==> generated(
                *final(self),
                *old(self),
                (Block {
                    code: seq![Instruction::NoOperation],
                    vars: old(self).variables.spec_entries(),
                    breaks: Seq::empty(), continues: seq![0],
                }),
            ),
    {
        match self.iterators.pop() {
            Some(mut iter) => {
                let ghost top = iter;
                iter.continues.push(self.instructions.len());
                self.iterators.push(iter);
                self.instructions.push(Instruction::NoOperation);
                proof {
                    assert(self.instructions@.take(old(self).instructions@.len() as int) =~= old(self).instructions@);
                    assert(self.instructions@ =~= old(self).instructions@ + seq![Instruction::NoOperation]);
                    let ni = self.iterators@;
                    let oi = old(self).iterators@;
                    assert(top == oi.last());
                    assert(ni.last() == iter);
                    assert forall|i: int| 0 <= i < oi.len() - 1 implies #[trigger] ni[i] == oi[i] by {
                        assert(ni[i] == oi.drop_last()[i]);
                    }
                    assert(ni.last().continues@.len() == oi.last().continues@.len() + 1);
                }
                Ok(())
            },
            None => Err(codegen_error(CompilerErrorType::ContinueOutsideOfLoop, position)),
        }
    }

    /// Ends the innermost loop, which starts at `start`: its `break`s jump to
    /// the end of the code, its `continue`s back to `start`.
    fn update_iterator_jumps(&mut self, position: TokenPosition, start: usize) -> (r: Result<(), CompilerError>)
        ensures
            old(self).iterators@.len() == 0 ==> (r matches Err(e) && e.error == CompilerErrorType::NoIteratorJumpsFound),
            old(self).iterators@.len() > 0 ==> r is Ok && final(self).iterators@ == old(self).iterators@.drop_last()
                && final(self).instructions@ == closed_loop(
                old(self).instructions@,
                old(self).iterators@.last().breaks@,
                old(self).iterators@.last().continues@,
                start as int,
            ),
            final(self).iterators@.len() == if old(self).iterators@.len() > 0 {
                old(self).iterators@.len() - 1
            } else {
                0
            },
            final(self).variables == old(self).variables,
            final(self).name == old(self).name,
            final(self).instructions@.len() == old(self).instructions@.len(),
            start <= old(self).instructions@.len() ==> final(self).instructions@.take(start as int) == old(
                self,
            ).instructions@.take(start as int),
    {
        let it = match self.iterators.pop() {
            Some(it) => it,
            None => return Err(codegen_error(CompilerErrorType::NoIteratorJumpsFound, position)),
        };
        let ghost orig = self.instructions@;
        let ghost brk = it.breaks@;
        let ghost cont = it.continues@;
        let n = self.instructions.len();
        let mut i: usize = 0;
        while i < it.breaks.len()
            invariant
                self.instructions@.len() == n,
                orig.len() == n,
                brk == it.breaks@,
                forall|x: int| 0 <= x < n ==> #[trigger] self.instructions@[x] == if start <= x && records(brk.take(i as int), x) {
                    Instruction::JumpForward((n - x) as usize)
                } else {
                    orig[x]
                },
                start <= old(self).instructions@.len() ==> self.instructions@.take(start as int) == old(self).instructions@.take(start as int),
                self.variables == old(self).variables,
                self.name == old(self).name,
                self.iterators@ == old(self).iterators@.drop_last(),
                i <= brk.len(),
            decreases it.breaks.len() - i,
        {
            let ip = it.breaks[i];
            let ghost before = self.instructions@;
            if start <= ip && ip < n {
                self.instructions.set(ip, Instruction::JumpForward(n - ip));
                proof {
                    if start <= old(self).instructions@.len() {
                        assert(self.instructions@.take(start as int) =~= old(self).instructions@.take(start as int));
                    }
                }
            }
            proof {
                assert forall|x: int| 0 <= x < n implies #[trigger] self.instructions@[x] == if start <= x && records(brk.take(i + 1), x) {
                    Instruction::JumpForward((n - x) as usize)
                } else {
                    orig[x]
                } by {
                    let t0 = brk.take(i as int);
                    let t1 = brk.take(i + 1);
                    if records(t1, x) && !records(t0, x) {
                        let j = choose|j: int| 0 <= j < t1.len() && t1[j] == x;
                        if j < i {
                            assert(t0[j] == x);
                        }
                    }
                    if records(t0, x) {
                        let j = choose|j: int| 0 <= j < t0.len() && t0[j] == x;
                        assert(t1[j] == x);
                    }
                    if x == ip as int {
                        assert(t1[i as int] == x);
                    }
                }
            }
            i = i + 1;
        }
        proof {
            assert(brk.take(brk.len() as int) =~= brk);
        }
        let ghost mid = self.instructions@;
        let mut j: usize = 0;
        while j < it.continues.len()
            invariant
                self.instructions@.len() == n,
                mid.len() == n,
                cont == it.continues@,
                forall|x: int| 0 <= x < n ==> #[trigger] self.instructions@[x] == if start <= x && records(cont.take(j as int), x) {
                    Instruction::JumpBackward((x - start) as usize)
                } else {
                    mid[x]
                },
                start <= old(self).instructions@.len() ==> self.instructions@.take(start as int) == old(self).instructions@.take(start as int),
                self.variables == old(self).variables,
                self.name == old(self).name,
                self.iterators@ == old(self).iterators@.drop_last(),
                j <= cont.len(),
            decreases it.continues.len() - j,
        {
            let ip = it.continues[j];
            if start <= ip && ip < n {
                self.instructions.set(ip, Instruction::JumpBackward(ip - start));
                proof {
                    if start <= old(self).instructions@.len() {
                        assert(self.instructions@.take(start as int) =~= old(self).instructions@.take(start as int));
                    }
                }
            }
            proof {
                assert forall|x: int| 0 <= x < n implies #[trigger] self.instructions@[x] == if start <= x && records(cont.take(j + 1), x) {
                    Instruction::JumpBackward((x - start) as usize)
                } else {
                    mid[x]
                } by {
                    let t0 = cont.take(j as int);
                    let t1 = cont.take(j + 1);
                    if records(t1, x) && !records(t0, x) {
                        let w = choose|w: int| 0 <= w < t1.len() && t1[w] == x;
                        if w < j {
                            assert(t0[w] == x);
                        }
                    }
                    if records(t0, x) {
                        let w = choose|w: int| 0 <= w < t0.len() && t0[w] == x;
                        assert(t1[w] == x);
                    }
                    if x == ip as int {
                        assert(t1[j as int] == x);
                    }
                }
            }
            j = j + 1;
        }
        proof {
            assert(cont.take(cont.len() as int) =~= cont);
            assert(self.instructions@ =~= closed_loop(orig, brk, cont, start as int));
        }
        Ok(())
    }
}

/// Instruction `i` of `code` was set to `ins`, the rest kept.
proof fn lemma_set_keeps_prefix(before: Seq<Instruction>, after: Seq<Instruction>, i: int, ins: Instruction, k: int)
    requires
        0 <= k <= i < before.len(),
        after == before.update(i, ins),
    ensures
        after.take(k) == before.take(k),
        after.len() == before.len(),
{
    assert(after.take(k) =~= before.take(k));
}

impl Function {
    /// Appends the code of each statement in turn.
    #[verifier::loop_isolation(false)]
    pub fn generate_statements(&mut self, statements: Vec<Syntax>) -> (r: Result<(), CompilerError>)
        ensures
            r is Ok ==> extends(*final(self), *old(self)),
            match stmts_block(statements@, old(self).variables.spec_entries(), old(self).iterators@.len() > 0) {
                Some(b) => r is Ok && generated(*final(self), *old(self), b),
                None => r is Err,
            },
        decreases statements, 1nat,
    {
        let ghost whole = statements;
        let ghost orig = statements@;
        let ghost f0 = *self;
        let ghost vars0 = self.variables.spec_entries();
        let ghost in_loop = self.iterators@.len() > 0;
        let n = statements.len();
        let mut statements = statements;
        let mut k: usize = 0;
        let ghost mut done = plain(Seq::empty(), vars0);
        proof {
            lemma_extends_refl(*self);
            assert(orig.subrange(0, 0) =~= Seq::<Syntax>::empty());
            assert(self.instructions@ =~= f0.instructions@ + done.code);
            lemma_loops_after_same(f0.iterators@, done, f0.instructions@.len() as int);
        }
        while statements.len() > 0
            invariant
                k + statements@.len() == orig.len(),
                n == orig.len(),
                statements@ == orig.subrange(k as int, orig.len() as int),
                whole@ == orig,
                extends(*self, f0),
                f0 == *old(self),
                vars0 == f0.variables.spec_entries(),
                in_loop == (f0.iterators@.len() > 0),
                stmts_block(orig.subrange(0, k as int), vars0, in_loop) == Some(done),
                generated(*self, f0, done),
            decreases statements.len(),
        {
            let statement = statements.remove(0);
            proof {
                assert(statement == orig[k as int]);
                assert(decreases_to!(whole => whole@));
                assert(decreases_to!(whole@ => whole@[k as int]));
            }
            let ghost before = *self;
            let ghost pre = orig.subrange(0, k + 1);
            proof {
                assert(pre.subrange(0, pre.len() - 1) =~= orig.subrange(0, k as int));
                assert(pre[pre.len() - 1] == orig[k as int]);
            }
            match self.generate_statement(statement) {
                Ok(()) => {},
                Err(e) => {
                    proof {
                        lemma_stmts_block_none(orig, k + 1, vars0, in_loop);
                    }
                    return Err(e);
                },
            }
            proof {
                let b = stmt_block(orig[k as int], done.vars, in_loop)->0;
                lemma_extends_trans(f0, before, *self);
                lemma_loops_after_join(self.iterators@, before.iterators@, f0.iterators@, done, b, f0.instructions@.len() as int);
                lemma_jumps_inside_join(done, b);
                assert(self.instructions@ =~= f0.instructions@ + join(done, b).code);
                done = join(done, b);
            }
            k = k + 1;
        }
        proof {
            assert(orig.subrange(0, k as int) =~= orig);
        }
        Ok(())
    }

    /// Appends the code of one statement. What is no statement is passed
    /// over.
    pub fn generate_statement(&mut self, statement: Syntax) -> (r: Result<(), CompilerError>)
        ensures
            r is Ok ==> extends(*final(self), *old(self)),
            match stmt_block(statement, old(self).variables.spec_entries(), old(self).iterators@.len() > 0) {
                Some(b) => r is Ok && generated(*final(self), *old(self), b),
                None => r is Err,
            },
        decreases statement, 2nat,
    {
        let ghost whole = statement;
        let ghost before = *self;
        let ghost vars = self.variables.spec_entries();
        proof {
            lemma_extends_refl(*self);
        }
        match &statement {
            Syntax::Call { position, .. } => {
                let p = *position;
                self.generate_expression(p, Box::new(statement))?;
                proof {
                    assert(self.instructions@.take(before.instructions@.len() as int) =~= before.instructions@);
                    lemma_generated_plain(*self, before, expr_code(whole, vars)->0);
                }
                return Ok(());
            },
            Syntax::IfChain { .. } => return self.generate_if_else(Box::new(statement)),
            Syntax::Match { .. } => return self.generate_match(Box::new(statement)),
            _ => {},
        }
        match statement {
            Syntax::Variable { position, name, value } => {
                let ghost b = declared_block(*name, value, vars, true);
                self.generate_variable_with_value_else_default(position, name, value)?;
                proof {
                    lemma_generated_block(*self, before, b->0);
                }
                Ok(())
            },
            Syntax::Assign { position, target, value } => {
                let ghost c = assign_code(*target, *value, vars);
                self.generate_assignment(position, target, value)?;
                proof {
                    assert(self.instructions@.take(before.instructions@.len() as int) =~= before.instructions@);
                    lemma_generated_plain(*self, before, c->0);
                }
                Ok(())
            },
            Syntax::Return { position, expr } => {
                let ghost e = expr;
                self.generate_return(position, expr)?;
                proof {
                    assert(self.instructions@.take(before.instructions@.len() as int) =~= before.instructions@);
                    match e {
                        Some(x) => {
                            let c = expr_code(*x, vars)->0;
                            assert(self.instructions@ =~= before.instructions@ + c.push(Instruction::Return { with_value: true }));
                            lemma_generated_plain(*self, before, c.push(Instruction::Return { with_value: true }));
                        },
                        None => {
                            assert(self.instructions@ =~= before.instructions@ + seq![Instruction::Return { with_value: false }]);
                            lemma_generated_plain(*self, before, seq![Instruction::Return { with_value: false }]);
                        },
                    }
                }
                Ok(())
            },
            Syntax::WhileLoop { position, condition, body } => {
                proof {
                    assert(decreases_to!(whole => whole->WhileLoop_body));
                }
                self.generate_while_loop(position, condition, body)
            },
            Syntax::ForEach { position, ident, collection, body } => {
                proof {
                    assert(decreases_to!(whole => whole->ForEach_body));
                }
                self.generate_iterator(position, ident, collection, body)
            },
            Syntax::Break { position } => self.generate_break(position),
            Syntax::Continue { position } => self.generate_continue(position),
            Syntax::Print { position, expr } => {
                let ghost c = expr_code(*expr, vars);
                self.generate_print(position, expr)?;
                proof {
                    assert(self.instructions@.take(before.instructions@.len() as int) =~= before.instructions@);
                    assert(self.instructions@ =~= before.instructions@ + c->0.push(Instruction::Print));
                    lemma_generated_plain(*self, before, c->0.push(Instruction::Print));
                }
                Ok(())
            },
            Syntax::Sleep { position, expr } => {
                let ghost c = expr_code(*expr, vars);
                self.generate_sleep(position, expr)?;
                proof {
                    assert(self.instructions@.take(before.instructions@.len() as int) =~= before.instructions@);
                    assert(self.instructions@ =~= before.instructions@ + c->0.push(Instruction::Sleep));
                    lemma_generated_plain(*self, before, c->0.push(Instruction::Sleep));
                }
                Ok(())
            },
            _ => {
                proof {
                    assert(self.instructions@ =~= before.instructions@ + Seq::<Instruction>::empty());
                    lemma_generated_plain(*self, before, Seq::empty());
                }
                Ok(())
            },
        }
    }

    /// `while condition do body end`: the condition, a jump past the loop
    /// when it is false, the body, and a jump back to the condition.
    pub fn generate_while_loop(&mut self, position: TokenPosition, expr: Box<Syntax>, block: Vec<Syntax>) -> (r: Result<
        (),
        CompilerError,
    >)
        ensures
            r is Ok ==> extends(*final(self), *old(self)),
            match stmt_block(
                (Syntax::WhileLoop { position, condition: expr, body: block }),
                old(self).variables.spec_entries(),
                old(self).iterators@.len() > 0,
            ) {
                Some(b) => r is Ok && generated(*final(self), *old(self), b),
                None => r is Err,
            },
        decreases block, 3nat,
    {
        let ghost f0 = *self;
        let ghost vars = self.variables.spec_entries();
        let ghost cond = *expr;
        let ghost body = block@;
        self.iterators.push(IteratorTracker { breaks: Vec::new(), continues: Vec::new() });
        let ghost t0 = self.iterators@.last();
        let start = self.instructions.len();
        self.generate_expression(position, expr)?;
        let ghost c = expr_code(cond, vars)->0;
        let jump_not_true = self.instructions.len();
        self.instructions.push(Instruction::Halt("no jump-not-true provided".to_owned()));
        let ghost f1 = *self;
        self.generate_statements(block)?;
        let ghost b = stmts_block(body, vars, true)->0;
        let ghost fb = *self;
        let len = self.instructions.len();
        self.instructions.push(Instruction::JumpBackward(len - start));
        let len = self.instructions.len();
        let ghost f2 = *self;
        self.instructions.set(jump_not_true, Instruction::JumpForwardIfFalse(len - jump_not_true));
        proof {
            assert(f1.instructions@.take(f0.instructions@.len() as int) =~= f0.instructions@);
            assert(f2.instructions@.take(f1.instructions@.len() as int) =~= f1.instructions@);
            lemma_set_keeps_prefix(f2.instructions@, self.instructions@, jump_not_true as int, Instruction::JumpForwardIfFalse((len - jump_not_true) as usize), f0.instructions@.len() as int);
            assert(self.instructions@.take(f0.instructions@.len() as int) =~= f0.instructions@);
        }
        let ghost f3 = *self;
        self.update_iterator_jumps(position, start)?;
        proof {
            assert(self.instructions@.take(f0.instructions@.len() as int) =~= f3.instructions@.take(f0.instructions@.len() as int));
            let k = b.code.len() as int;
            let m = c.len() as int;
            let head = c + seq![Instruction::JumpForwardIfFalse((k + 2) as usize)];
            let last = Instruction::JumpBackward((m + 1 + k) as usize);
            assert(f3.instructions@ =~= f0.instructions@ + head + b.code + seq![last]);
            let top = f3.iterators@.last();
            assert(t0.breaks@ =~= Seq::<usize>::empty());
            assert(t0.continues@ =~= Seq::<usize>::empty());
            assert(f1.iterators@.last() == t0);
            lemma_closed_loop(f0.instructions@, head, b, last, top.breaks@, top.continues@);
            let code = c + seq![Instruction::JumpForwardIfFalse((k + 2) as usize)] + loop_body(b, k + 1, -(m + 1)) + seq![
                Instruction::JumpBackward((m + 1 + k) as usize),
            ];
            assert(self.instructions@ =~= f0.instructions@ + code);
            assert(self.iterators@ =~= f0.iterators@) by {
                assert forall|i: int| 0 <= i < f0.iterators@.len() implies #[trigger] self.iterators@[i] == f0.iterators@[i] by {
                    assert(fb.iterators@[i] == f1.iterators@[i]);
                }
            }
            lemma_generated_block(*self, f0, plain(code, b.vars));
        }
        Ok(())
    }

    /// `for x in collection do body end`, or with a range: the collection (or
    /// the range's end, step and start), an iterator, and the body, run while
    /// the iterator gives items.
    #[verifier::spinoff_prover]
    #[verifier::rlimit(60)]
    pub fn generate_iterator(&mut self, position: TokenPosition, var: Box<Syntax>, target: Box<Syntax>, block: Vec<Syntax>) -> (r:
        Result<(), CompilerError>)
        ensures
            r is Ok ==> extends(*final(self), *old(self)),
            match stmt_block(
                (Syntax::ForEach { position, ident: var, collection: target, body: block }),
                old(self).variables.spec_entries(),
                old(self).iterators@.len() > 0,
            ) {
                Some(b) => r is Ok && generated(*final(self), *old(self), b),
                None => r is Err,
            },
        decreases block, 3nat,
    {
        let ghost f0 = *self;
        let ghost vars = self.variables.spec_entries();
        let ghost coll = *target;
        let ghost body = block@;
        self.iterators.push(IteratorTracker { breaks: Vec::new(), continues: Vec::new() });
        let ghost t0 = self.iterators@.last();
        let text = match &*var {
            Syntax::Identifier { name, .. } => name.clone(),
            _ => return Err(codegen_error(CompilerErrorType::InvalidIteratorVariable, position)),
        };
        let ghost v1 = crate::blocks::declare(vars, text);
        self.generate_variable_with_value(position, var, None)?;
        let var_slot = match self.variables.get(text.as_str()) {
            Some(v) => v.slot_index,
            None => 0,
        };
        let ghost fh = *self;
        proof {
            assert(self.instructions@ =~= f0.instructions@);
            assert(var_slot == vars.len());
        }
        match *target {
            Syntax::Range { start, end, step } => {
                self.generate_expression(position, end)?;
                match step {
                    Some(step) => self.generate_expression(position, step)?,
                    None => self.instructions.push(Instruction::PushInteger(1)),
                }
                self.generate_expression(position, start)?;
            },
            other => {
                self.generate_expression(position, Box::new(other))?;
                self.instructions.push(Instruction::PushInteger(1));
                self.instructions.push(Instruction::PushInteger(0));
            },
        }
        let ghost h = range_code(coll, v1)->0;
        proof {
            assert(self.instructions@ =~= f0.instructions@ + h);
        }
        self.instructions.push(Instruction::IteratorInit);
        let start_ins_ptr = self.instructions.len();
        self.instructions.push(Instruction::IteratorNext(var_slot));
        self.instructions.push(Instruction::JumpForwardIfFalse(0));
        let ghost f1 = *self;
        self.generate_statements(block)?;
        let ghost b = stmts_block(body, v1, true)->0;
        let ghost fb = *self;
        let len = self.instructions.len();
        self.instructions.push(Instruction::JumpBackward(len - start_ins_ptr));
        let ghost f2 = *self;
        self.update_iterator_jumps(position, start_ins_ptr)?;
        let len = self.instructions.len();
        let ghost f3 = *self;
        self.instructions.set(start_ins_ptr + 1, Instruction::JumpForwardIfFalse(len - start_ins_ptr - 1));
        proof {
            assert(f1.instructions@.take(f0.instructions@.len() as int) =~= f0.instructions@);
            assert(f2.instructions@.take(f1.instructions@.len() as int) =~= f1.instructions@);
            assert(f3.instructions@.take(f0.instructions@.len() as int) =~= f2.instructions@.take(f0.instructions@.len() as int));
            lemma_set_keeps_prefix(f3.instructions@, self.instructions@, start_ins_ptr + 1, Instruction::JumpForwardIfFalse((len - start_ins_ptr - 1) as usize), f0.instructions@.len() as int);
            assert(self.instructions@.take(f0.instructions@.len() as int) =~= f0.instructions@);
            let k = b.code.len() as int;
            let prefix = f0.instructions@ + h + seq![Instruction::IteratorInit];
            let head = seq![Instruction::IteratorNext(var_slot), Instruction::JumpForwardIfFalse(0)];
            let last = Instruction::JumpBackward((k + 2) as usize);
            assert(f2.instructions@ =~= prefix + head + b.code + seq![last]);
            let top = f2.iterators@.last();
            assert(t0.breaks@ =~= Seq::<usize>::empty());
            assert(t0.continues@ =~= Seq::<usize>::empty());
            assert(f1.iterators@.last() == t0);
            lemma_closed_loop(prefix, head, b, last, top.breaks@, top.continues@);
            let code = h + seq![
                Instruction::IteratorInit,
                Instruction::IteratorNext(vars.len() as usize),
                Instruction::JumpForwardIfFalse((k + 2) as usize),
            ] + loop_body(b, k + 1, -2) + seq![Instruction::JumpBackward((k + 2) as usize)];
            assert(self.instructions@ =~= f0.instructions@ + code);
            assert(self.iterators@ =~= f0.iterators@) by {
                assert forall|i: int| 0 <= i < f0.iterators@.len() implies #[trigger] self.iterators@[i] == f0.iterators@[i] by {
                    assert(fb.iterators@[i] == f1.iterators@[i]);
                }
            }
            lemma_generated_block(*self, f0, plain(code, b.vars));
        }
        Ok(())
    }
}

impl Function {
    /// Sets each recorded jump to the end of the code.
    fn patch_jumps_to_end(&mut self, jumps: Vec<usize>, from: usize)
        requires
            from <= old(self).instructions@.len(),
        ensures
            final(self).variables == old(self).variables,
            final(self).name == old(self).name,
            final(self).iterators == old(self).iterators,
            final(self).instructions@.len() == old(self).instructions@.len(),
            final(self).instructions@.take(from as int) == old(self).instructions@.take(from as int),
            final(self).instructions@ == ended(old(self).instructions@, jumps@, from as int),
    {
        let ghost orig = self.instructions@;
        let ghost js = jumps@;
        let n = self.instructions.len();
        let mut i: usize = 0;
        while i < jumps.len()
            invariant
                from <= n,
                self.instructions@.len() == n,
                orig.len() == n,
                js == jumps@,
                i <= js.len(),
                forall|x: int| 0 <= x < n ==> #[trigger] self.instructions@[x] == if from <= x && records(js.take(i as int), x) {
                    Instruction::JumpForward((n - x) as usize)
                } else {
                    orig[x]
                },
                self.instructions@.take(from as int) == old(self).instructions@.take(from as int),
                self.variables == old(self).variables,
                self.name == old(self).name,
                self.iterators == old(self).iterators,
            decreases jumps.len() - i,
        {
            let jump = jumps[i];
            if from <= jump && jump < n {
                self.instructions.set(jump, Instruction::JumpForward(n - jump));
                proof {
                    assert(self.instructions@.take(from as int) =~= old(self).instructions@.take(from as int));
                }
            }
            proof {
                assert forall|x: int| 0 <= x < n implies #[trigger] self.instructions@[x] == if from <= x && records(js.take(i + 1), x) {
                    Instruction::JumpForward((n - x) as usize)
                } else {
                    orig[x]
                } by {
                    let t0 = js.take(i as int);
                    let t1 = js.take(i + 1);
                    if records(t1, x) && !records(t0, x) {
                        let w = choose|w: int| 0 <= w < t1.len() && t1[w] == x;
                        if w < i {
                            assert(t0[w] == x);
                        }
                    }
                    if records(t0, x) {
                        let w = choose|w: int| 0 <= w < t0.len() && t0[w] == x;
                        assert(t1[w] == x);
                    }
                    if x == jump as int {
                        assert(t1[i as int] == x);
                    }
                }
            }
            i = i + 1;
        }
        proof {
            assert(js.take(js.len() as int) =~= js);
            assert(self.instructions@ =~= ended(orig, js, from as int));
        }
    }

    /// One arm of an `if` chain; the place of its jump past the chain is
    /// recorded in `jump_to_end`.
    #[verifier::spinoff_prover]
    #[verifier::rlimit(40)]
    fn generate_arm(&mut self, arm: Syntax, jump_to_end: &mut Vec<usize>) -> (r: Result<(), CompilerError>)
        ensures
            r is Ok ==> extends(*final(self), *old(self)),
            match arm_block(arm, old(self).variables.spec_entries(), old(self).iterators@.len() > 0) {
                Some((b, e)) => r is Ok && generated(*final(self), *old(self), b) && jumps_added(
                    final(jump_to_end)@,
                    old(jump_to_end)@,
                    e,
                    old(self).instructions@.len() as int,
                ) && ends_inside(e, b.code),
                None => r is Err,
            },
        decreases arm, 0nat,
    {
        let ghost a0 = *self;
        let ghost armv = arm;
        let ghost vars = self.variables.spec_entries();
        let ghost in_loop = self.iterators@.len() > 0;
        proof {
            lemma_extends_refl(*self);
        }
        match arm {
            Syntax::If { position, condition, body } => {
                let ghost cond = *condition;
                let ghost bodyv = body@;
                self.generate_expression(position, condition)?;
                let jump_to_next = self.instructions.len();
                self.instructions.push(Instruction::Halt("unknown next condition to jump to".to_owned()));
                let ghost a1 = *self;
                proof {
                    assert(decreases_to!(armv => armv->If_body));
                }
                self.generate_statements(body)?;
                let ghost b = stmts_block(bodyv, vars, in_loop)->0;
                jump_to_end.push(self.instructions.len());
                self.instructions.push(Instruction::NoOperation);
                let len = self.instructions.len();
                let ghost a2 = *self;
                self.instructions.set(jump_to_next, Instruction::JumpForwardIfFalse(len - jump_to_next));
                proof {
                    assert(a1.instructions@.take(a0.instructions@.len() as int) =~= a0.instructions@);
                    assert(a2.instructions@.take(a1.instructions@.len() as int) =~= a1.instructions@);
                    lemma_set_keeps_prefix(a2.instructions@, self.instructions@, jump_to_next as int, Instruction::JumpForwardIfFalse((len - jump_to_next) as usize), a0.instructions@.len() as int);
                    assert(self.instructions@.take(a0.instructions@.len() as int) =~= a0.instructions@);
                    let c = expr_code(cond, vars)->0;
                    let m = c.len() as int;
                    let (ab, eb) = arm_block(armv, vars, in_loop)->0;
                    assert(self.instructions@ =~= a0.instructions@ + ab.code);
                    lemma_loops_after_shift(self.iterators@, a0.iterators@, b, ab, a0.instructions@.len() as int, m + 1);
                    lemma_jumps_inside_shift(b, ab, m + 1);
                }
                Ok(())
            },
            Syntax::Else { body, .. } => {
                proof {
                    assert(decreases_to!(armv => armv->Else_body));
                }
                self.generate_statements(body)
            },
            _ => Err(codegen_error(CompilerErrorType::IfStatementInvalid, TokenPosition { line: 0, column: 0 })),
        }
    }

    /// An `if` chain: each condition jumps to the next arm when false; each
    /// arm's body ends with a jump past the chain.
    #[verifier::loop_isolation(false)]
    #[verifier::spinoff_prover]
    #[verifier::rlimit(40)]
    pub fn generate_if_else(&mut self, syntax: Box<Syntax>) -> (r: Result<(), CompilerError>)
        ensures
            r is Ok ==> extends(*final(self), *old(self)),
            !(*syntax is IfChain) ==> r is Err,
            *syntax is IfChain ==> match stmt_block(*syntax, old(self).variables.spec_entries(), old(self).iterators@.len() > 0) {
                Some(b) => r is Ok && generated(*final(self), *old(self), b),
                None => r is Err,
            },
        decreases *syntax, 1nat,
    {
        let ghost whole = *syntax;
        let ghost f0 = *self;
        let ghost vars0 = self.variables.spec_entries();
        let ghost in_loop = self.iterators@.len() > 0;
        let from = self.instructions.len();
        let arms = match *syntax {
            Syntax::IfChain { arms, .. } => arms,
            _ => return Err(codegen_error(CompilerErrorType::IfStatementInvalid, TokenPosition { line: 0, column: 0 })),
        };
        let ghost orig = arms@;
        let n = arms.len();
        let mut arms = arms;
        let mut jump_to_end: Vec<usize> = Vec::new();
        let mut k: usize = 0;
        let ghost mut done = plain(Seq::empty(), vars0);
        let ghost mut dends: Seq<int> = Seq::empty();
        proof {
            lemma_extends_refl(*self);
            assert(orig.subrange(0, 0) =~= Seq::<Syntax>::empty());
            assert(self.instructions@ =~= f0.instructions@ + done.code);
            lemma_loops_after_same(f0.iterators@, done, from as int);
        }
        while arms.len() > 0
            invariant
                k + arms@.len() == orig.len(),
                n == orig.len(),
                arms@ == orig.subrange(k as int, orig.len() as int),
                whole matches Syntax::IfChain { arms: v, .. } && v@ == orig,
                extends(*self, f0),
                f0 == *old(self),
                from == f0.instructions@.len(),
                vars0 == f0.variables.spec_entries(),
                in_loop == (f0.iterators@.len() > 0),
                arms_block(orig.subrange(0, k as int), vars0, in_loop) == Some((done, dends)),
                generated(*self, f0, done),
                ends_inside(dends, done.code),
                jumps_added(jump_to_end@, Seq::empty(), dends, from as int),
            decreases arms.len(),
        {
            let arm = arms.remove(0);
            proof {
                assert(arm == orig[k as int]);
                let v = whole->IfChain_arms;
                assert(decreases_to!(whole => v));
                assert(decreases_to!(v => v@));
                assert(decreases_to!(v@ => v@[k as int]));
            }
            let ghost a0 = *self;
            let ghost armv = arm;
            let ghost js0 = jump_to_end@;
            let ghost pre = orig.subrange(0, k + 1);
            proof {
                assert(pre.subrange(0, pre.len() - 1) =~= orig.subrange(0, k as int));
                assert(pre[pre.len() - 1] == orig[k as int]);
            }
            match self.generate_arm(arm, &mut jump_to_end) {
                Ok(()) => {},
                Err(e) => {
                    proof {
                        lemma_arms_block_none(orig, k + 1, vars0, in_loop);
                    }
                    return Err(e);
                },
            }
            proof {
                let (ab, eb) = arm_block(armv, done.vars, in_loop)->0;
                lemma_extends_trans(f0, a0, *self);
                lemma_loops_after_join(self.iterators@, a0.iterators@, f0.iterators@, done, ab, from as int);
                lemma_jumps_inside_join(done, ab);
                lemma_jumps_added_trans(jump_to_end@, js0, Seq::empty(), dends, eb, from as int, done.code.len() as int);
                lemma_ends_inside_join(dends, done.code, eb, ab.code);
                assert(self.instructions@ =~= f0.instructions@ + join(done, ab).code);
                dends = dends + shifted(eb, done.code.len() as int);
                done = join(done, ab);
            }
            k = k + 1;
        }
        proof {
            assert(orig.subrange(0, k as int) =~= orig);
        }
        let ghost g = *self;
        let ghost js = jump_to_end@;
        self.patch_jumps_to_end(jump_to_end, from);
        proof {
            assert(self.instructions@.take(f0.instructions@.len() as int) =~= g.instructions@.take(f0.instructions@.len() as int));
            lemma_ended(f0.instructions@, done.code, dends, js);
            let res = recoded(done, jumps_to_end(done.code, dends));
            assert(self.instructions@ =~= f0.instructions@ + res.code);
        }
        Ok(())
    }

    /// One case of a `match` on `expr`; the place of its jump past the match
    /// is recorded in `jump_to_end`.
    #[verifier::spinoff_prover]
    #[verifier::rlimit(40)]
    fn generate_case(&mut self, match_position: TokenPosition, expr: &Syntax, arm: Syntax, jump_to_end: &mut Vec<usize>) -> (r: Result<(), CompilerError>)
        ensures
            r is Ok ==> extends(*final(self), *old(self)),
            match case_block(*expr, arm, old(self).variables.spec_entries(), old(self).iterators@.len() > 0) {
                Some((b, e)) => r is Ok && generated(*final(self), *old(self), b) && jumps_added(
                    final(jump_to_end)@,
                    old(jump_to_end)@,
                    e,
                    old(self).instructions@.len() as int,
                ) && ends_inside(e, b.code),
                None => r is Err,
            },
        decreases arm, 0nat,
    {
        let ghost a0 = *self;
        let ghost armv = arm;
        let ghost vars = self.variables.spec_entries();
        let ghost in_loop = self.iterators@.len() > 0;
        proof {
            lemma_extends_refl(*self);
        }
        match arm {
            Syntax::Case { position, condition, body } => {
                let ghost cond = *condition;
                let ghost bodyv = body@;
                self.generate_expression(position, Box::new(copy_expression(expr)))?;
                self.generate_expression(position, condition)?;
                self.instructions.push(Instruction::Equal);
                let jump_to_next = self.instructions.len();
                self.instructions.push(Instruction::Halt("unknown next condition to jump to".to_owned()));
                let ghost a1 = *self;
                proof {
                    assert(decreases_to!(armv => armv->Case_body));
                }
                self.generate_statements(body)?;
                let ghost b = stmts_block(bodyv, vars, in_loop)->0;
                jump_to_end.push(self.instructions.len());
                self.instructions.push(Instruction::NoOperation);
                let len = self.instructions.len();
                let ghost a2 = *self;
                self.instructions.set(jump_to_next, Instruction::JumpForwardIfFalse(len - jump_to_next));
                proof {
                    assert(a1.instructions@.take(a0.instructions@.len() as int) =~= a0.instructions@);
                    assert(a2.instructions@.take(a1.instructions@.len() as int) =~= a1.instructions@);
                    lemma_set_keeps_prefix(a2.instructions@, self.instructions@, jump_to_next as int, Instruction::JumpForwardIfFalse((len - jump_to_next) as usize), a0.instructions@.len() as int);
                    assert(self.instructions@.take(a0.instructions@.len() as int) =~= a0.instructions@);
                    let e = expr_code(*expr, vars)->0;
                    let c = expr_code(cond, vars)->0;
                    let m = e.len() + c.len() + 1int;
                    let (ab, eb) = case_block(*expr, armv, vars, in_loop)->0;
                    assert(self.instructions@ =~= a0.instructions@ + ab.code);
                    lemma_loops_after_shift(self.iterators@, a0.iterators@, b, ab, a0.instructions@.len() as int, m + 1);
                    lemma_jumps_inside_shift(b, ab, m + 1);
                }
                Ok(())
            },
            _ => Err(codegen_error(CompilerErrorType::InvalidMatchArm, match_position)),
        }
    }

    /// A `match`: for each case, the matched expression and the case's value
    /// compared, a jump to the next case when they differ, the body and a jump
    /// past the match; then the default body.
    #[verifier::loop_isolation(false)]
    #[verifier::spinoff_prover]
    #[verifier::rlimit(40)]
    pub fn generate_match(&mut self, syntax: Box<Syntax>) -> (r: Result<(), CompilerError>)
        ensures
            r is Ok ==> extends(*final(self), *old(self)),
            !(*syntax is Match) ==> r is Err,
            *syntax is Match ==> match stmt_block(*syntax, old(self).variables.spec_entries(), old(self).iterators@.len() > 0) {
                Some(b) => r is Ok && generated(*final(self), *old(self), b),
                None => r is Err,
            },
        decreases *syntax, 1nat,
    {
        let ghost whole = *syntax;
        let ghost f0 = *self;
        let ghost vars0 = self.variables.spec_entries();
        let ghost in_loop = self.iterators@.len() > 0;
        let from = self.instructions.len();
        let (position, expr, arms, default) = match *syntax {
            Syntax::Match { position, expr, arms, default } => (position, expr, arms, default),
            _ => return Err(codegen_error(CompilerErrorType::InvalidMatch, TokenPosition { line: 0, column: 0 })),
        };
        let ghost orig = arms@;
        let ghost ex = *expr;
        let n = arms.len();
        let mut arms = arms;
        let mut jump_to_end: Vec<usize> = Vec::new();
        let mut k: usize = 0;
        let ghost mut done = plain(Seq::empty(), vars0);
        let ghost mut dends: Seq<int> = Seq::empty();
        proof {
            lemma_extends_refl(*self);
            assert(orig.subrange(0, 0) =~= Seq::<Syntax>::empty());
            assert(self.instructions@ =~= f0.instructions@ + done.code);
            lemma_loops_after_same(f0.iterators@, done, from as int);
        }
        while arms.len() > 0
            invariant
                k + arms@.len() == orig.len(),
                n == orig.len(),
                arms@ == orig.subrange(k as int, orig.len() as int),
                whole matches Syntax::Match { arms: v, .. } && v@ == orig,
                ex == *expr,
                extends(*self, f0),
                f0 == *old(self),
                from == f0.instructions@.len(),
                vars0 == f0.variables.spec_entries(),
                in_loop == (f0.iterators@.len() > 0),
                cases_block(ex, orig.subrange(0, k as int), vars0, in_loop) == Some((done, dends)),
                generated(*self, f0, done),
                ends_inside(dends, done.code),
                jumps_added(jump_to_end@, Seq::empty(), dends, from as int),
            decreases arms.len(),
        {
            let arm = arms.remove(0);
            proof {
                assert(arm == orig[k as int]);
                let v = whole->Match_arms;
                assert(decreases_to!(whole => v));
                assert(decreases_to!(v => v@));
                assert(decreases_to!(v@ => v@[k as int]));
            }
            let ghost a0 = *self;
            let ghost armv = arm;
            let ghost js0 = jump_to_end@;
            let ghost pre = orig.subrange(0, k + 1);
            proof {
                assert(pre.subrange(0, pre.len() - 1) =~= orig.subrange(0, k as int));
                assert(pre[pre.len() - 1] == orig[k as int]);
            }
            match self.generate_case(position, &expr, arm, &mut jump_to_end) {
                Ok(()) => {},
                Err(e) => {
                    proof {
                        lemma_cases_block_none(ex, orig, k + 1, vars0, in_loop);
                    }
                    return Err(e);
                },
            }
            proof {
                let (ab, eb) = case_block(ex, armv, done.vars, in_loop)->0;
                lemma_extends_trans(f0, a0, *self);
                lemma_loops_after_join(self.iterators@, a0.iterators@, f0.iterators@, done, ab, from as int);
                lemma_jumps_inside_join(done, ab);
                lemma_jumps_added_trans(jump_to_end@, js0, Seq::empty(), dends, eb, from as int, done.code.len() as int);
                lemma_ends_inside_join(dends, done.code, eb, ab.code);
                assert(self.instructions@ =~= f0.instructions@ + join(done, ab).code);
                dends = dends + shifted(eb, done.code.len() as int);
                done = join(done, ab);
            }
            k = k + 1;
        }
        proof {
            assert(orig.subrange(0, k as int) =~= orig);
        }
        if let Some(def) = default {
            let ghost d0 = *self;
            let ghost defv = *def;
            proof {
                let dv = whole->Match_default;
                assert(decreases_to!(whole => dv));
                assert(decreases_to!(dv => dv->0));
            }
            match *def {
                Syntax::DefaultCase { body, .. } => {
                    let ghost bodyv = body@;
                    proof {
                        assert(decreases_to!(defv => defv->DefaultCase_body));
                    }
                    self.generate_statements(body)?;
                    proof {
                        lemma_extends_trans(f0, d0, *self);
                        let b = stmts_block(bodyv, done.vars, in_loop)->0;
                        lemma_loops_after_join(self.iterators@, d0.iterators@, f0.iterators@, done, b, from as int);
                        lemma_jumps_inside_join(done, b);
                        assert(self.instructions@ =~= f0.instructions@ + join(done, b).code);
                        done = join(done, b);
                    }
                },
                _ => return Err(codegen_error(CompilerErrorType::InvalidDefaultCase, TokenPosition { line: 0, column: 0 })),
            }
        }
        let ghost g = *self;
        let ghost js = jump_to_end@;
        self.patch_jumps_to_end(jump_to_end, from);
        proof {
            assert(self.instructions@.take(f0.instructions@.len() as int) =~= g.instructions@.take(f0.instructions@.len() as int));
            lemma_ended(f0.instructions@, done.code, dends, js);
            let res = recoded(done, jumps_to_end(done.code, dends));
            assert(self.instructions@ =~= f0.instructions@ + res.code);
        }
        Ok(())
    }
}

impl Function {
    /// Declares each parameter as a variable, in order.
    #[verifier::loop_isolation(false)]
    pub fn generate_parameters(&mut self, parameters: Vec<Syntax>) -> (r: Result<(), CompilerError>)
        ensures
            r is Ok ==> extends(*final(self), *old(self)),
            final(self).iterators == old(self).iterators,
            match params_block(parameters@, old(self).variables.spec_entries()) {
                Some(b) => r is Ok && generated(*final(self), *old(self), b),
                None => r is Err,
            },
    {
        let ghost orig = parameters@;
        let ghost f0 = *self;
        let ghost vars0 = self.variables.spec_entries();
        let n = parameters.len();
        let mut parameters = parameters;
        let mut k: usize = 0;
        let ghost mut done = plain(Seq::empty(), vars0);
        proof {
            lemma_extends_refl(*self);
            assert(orig.subrange(0, 0) =~= Seq::<Syntax>::empty());
            assert(self.instructions@ =~= f0.instructions@ + done.code);
            lemma_loops_after_same(f0.iterators@, done, f0.instructions@.len() as int);
        }
        while parameters.len() > 0
            invariant
                extends(*self, *old(self)),
                f0 == *old(self),
                vars0 == f0.variables.spec_entries(),
                k + parameters@.len() == orig.len(),
                parameters@ == orig.subrange(k as int, orig.len() as int),
                params_block(orig.subrange(0, k as int), vars0) == Some(done),
                generated(*self, f0, done),
                done.breaks.len() == 0,
                done.continues.len() == 0,
                self.iterators == f0.iterators,
            decreases parameters.len(),
        {
            let param = parameters.remove(0);
            let ghost before = *self;
            let ghost pre = orig.subrange(0, k + 1);
            proof {
                assert(param == orig[k as int]);
                assert(pre.subrange(0, pre.len() - 1) =~= orig.subrange(0, k as int));
                assert(pre[pre.len() - 1] == orig[k as int]);
            }
            match param {
                Syntax::Variable { position, name, value } => {
                    let ghost b = declared_block(*name, value, done.vars, false);
                    match self.generate_variable_with_value(position, name, value) {
                        Ok(()) => {},
                        Err(e) => {
                            proof {
                                lemma_params_block_none(orig, k + 1, vars0);
                            }
                            return Err(e);
                        },
                    }
                    proof {
                        lemma_extends_trans(*old(self), before, *self);
                        let bb = b->0;
                        assert(self.instructions@ =~= f0.instructions@ + join(done, bb).code);
                        assert(shifted(bb.breaks, done.code.len() as int) =~= Seq::<int>::empty());
                        assert(shifted(bb.continues, done.code.len() as int) =~= Seq::<int>::empty());
                        done = join(done, bb);
                        assert(done.breaks =~= Seq::<int>::empty());
                        assert(done.continues =~= Seq::<int>::empty());
                        lemma_loops_after_same(f0.iterators@, done, f0.instructions@.len() as int);
                    }
                },
                other => {
                    proof {
                        lemma_params_block_none(orig, k + 1, vars0);
                    }
                    return Err(
                        codegen_error(CompilerErrorType::UnableToCompileParameterVariable(other), TokenPosition { line: 0, column: 0 }),
                    );
                },
            }
            k = k + 1;
        }
        proof {
            assert(orig.subrange(0, k as int) =~= orig);
        }
        Ok(())
    }

    /// The code of a function: its stack trace is pushed, its parameters are
    /// its first variables, then comes its body, a `return` when the body does
    /// not end with one, and the stack trace is popped.
    pub fn new(position: TokenPosition, name: String, parameters: Vec<Syntax>, body: Vec<Syntax>) -> (r: Result<Self, CompilerError>)
        ensures
            r matches Ok(f) ==> {
                let code = f.instructions@;
                &&& code.len() >= 3
                &&& code[0] matches Instruction::PushStackTrace(t) && t.line == position.line && t.function@ == name@
                &&& code[code.len() - 2] is Return
                &&& code[code.len() - 1] == Instruction::PopStackTrace
                &&& f.name == name
            },
            match function_code(parameters@, body@) {
                Some(c) => r matches Ok(f) && f.instructions@.len() == c.len() + 1 && f.instructions@.skip(1) == c && (
                f.instructions@[0] matches Instruction::PushStackTrace(t) && t.line == position.line && t.function@ == name@
                    && t.file@ == "unknown"@),
                None => r is Err,
            },
    {
        let mut f = Function::empty(name);
        let ghost f0 = f;
        proof {
            assert(f.variables.spec_entries() =~= Seq::<(String, Variable)>::empty());
        }
        f.generate_stack_trace_push(position.line)?;
        let ghost f1 = f;
        f.generate_parameters(parameters)?;
        let ghost f2 = f;
        f.generate_statements(body)?;
        let ghost f3 = f;
        proof {
            lemma_extends_trans(f1, f2, f);
            assert(f.instructions@.take(1) =~= f1.instructions@.take(1));
            assert(f.instructions@[0] == f.instructions@.take(1)[0]);
        }
        let ends_with_return = match f.instructions.last() {
            Some(Instruction::Return { .. }) => true,
            _ => false,
        };
        if !ends_with_return {
            f.instructions.push(Instruction::Return { with_value: false });
        }
        let ghost f4 = f;
        f.generate_stack_trace_pop()?;
        proof {
            let p = params_block(parameters@, Seq::empty())->0;
            let b = stmts_block(body@, p.vars, false)->0;
            let c = p.code + b.code;
            assert(f3.instructions@ =~= f1.instructions@ + c);
            assert(f1.instructions@.len() == 1);
            if c.len() > 0 {
                assert(f3.instructions@.last() == c.last());
            }
            let ended = if c.len() > 0 && c.last() is Return {
                c
            } else {
                c.push(Instruction::Return { with_value: false })
            };
            assert(f4.instructions@ =~= f1.instructions@ + ended);
            assert(f.instructions@.skip(1) =~= ended.push(Instruction::PopStackTrace));
        }
        Ok(f)
    }
}

} // verus!

use vstd::prelude::*;

use std::time::Duration;

use crate::error::RuntimeError;
use crate::frame::{stored, Frame};
use crate::instruction::{Instruction, StackTrace};
use crate::natives::{
    dict_clear, dict_clear_accepts, dict_clear_post, dict_constructor, dict_constructor_post, dict_contains_key,
    dict_contains_key_post, dict_get, dict_get_post, dict_keys, dict_keys_accepts, dict_keys_post, dict_length,
    dict_length_accepts, dict_length_post, dict_remove, dict_remove_accepts, dict_remove_post, dict_set,
    dict_set_post, dict_values, dict_values_accepts, dict_values_post, get_object_value, math_abs,
    math_abs_accepts, math_abs_post, math_max, math_max_accepts, math_max_post, math_min, math_min_accepts,
    math_min_post, member, string_constructor, string_constructor_post, string_length, string_length_accepts,
    string_length_post,
};
use crate::ops::{binary, binary_result, not, not_result, BinaryOp, Outcome};
use crate::program::Program;
use crate::table::Table;
use crate::variant::{
    copy_members, counter_next, same_table, same_value, Counter, Heap, Variant, CLASS_CONSTRUCTOR_NAME, DEPTH,
};

verus! {

/// A native function that a script can call. The library runs its own; a
/// `Host` function is handed to the host with `Step::Native`.
#[derive(Clone, Copy, Debug, PartialEq, Eq, Structural)]
pub enum NativeFunction {
    DictionaryConstructor,
    DictionaryGet,
    DictionarySet,
    DictionaryLength,
    DictionaryRemove,
    DictionaryClear,
    DictionaryKeys,
    DictionaryValues,
    DictionaryContainsKey,
    StringConstructor,
    StringLength,
    MathMax,
    MathMin,
    MathAbs,
    Host,
}

#[derive(Debug, PartialEq)]
struct ThreadOptions {
    stack_trace_enabled: bool,
}

/// A loaded program with the native functions it may call.
#[derive(Debug, PartialEq)]
pub struct Thread {
    program: Program,
    native_functions: Table<NativeFunction>,
    options: ThreadOptions,
}

/// What a finished run gave back, and how long it took.
#[derive(Debug)]
pub struct ExecutionResult {
    pub output: Option<Variant>,
    pub execution_time: Duration,
}

/// The state of a running program: the frames of the calling functions,
/// the value stack, the stack trace, the running function's frame, the
/// instruction pointer, and the objects.
#[derive(Debug)]
pub struct Execution {
    pub frames: Vec<Frame>,
    pub stack: Vec<Variant>,
    pub trace: Vec<StackTrace>,
    pub current: Frame,
    pub ip: usize,
    pub heap: Heap,
}

/// What one instruction asks of the host. After `Print`, `Sleep` and `Debug`
/// the host does that and goes on; after `Float`, `ParseFloat` and `Native` it
/// pushes the value it computed (a `Native` function may give none).
#[derive(Debug)]
pub enum Step {
    Next,
    Finished(Option<Variant>),
    Print(Variant),
    Sleep(i64),
    Debug(String),
    Float { op: BinaryOp, lhs: Variant, rhs: Variant },
    ParseFloat(String),
    Native { name: String, args: Vec<Variant> },
}

impl Thread {
    pub closed spec fn spec_program(&self) -> Program {
        self.program
    }

    pub closed spec fn spec_natives(&self) -> Table<NativeFunction> {
        self.native_functions
    }

    pub closed spec fn spec_trace_enabled(&self) -> bool {
        self.options.stack_trace_enabled
    }

    /// A thread for a program; a program without instructions is refused.
    pub fn load_program(program: Program) -> (r: Result<Self, RuntimeError>)
        ensures
            program.instructions@.len() == 0 ==> r == Err::<Thread, RuntimeError>(RuntimeError::NoInstructions),
            program.instructions@.len() > 0 ==> (r matches Ok(t) && {
                &&& t.spec_program() == program
                &&& t.spec_natives().spec_len() == 0
                &&& !t.spec_trace_enabled()
            }),
    {
        if program.instructions.len() == 0 {
            return Err(RuntimeError::NoInstructions);
        }
        Ok(Thread { program, native_functions: Table::new(), options: ThreadOptions { stack_trace_enabled: false } })
    }

    /// Makes a native function callable under `name`.
    pub fn add_native_function(&mut self, name: &str, callback: NativeFunction)
        ensures
            final(self).spec_program() == old(self).spec_program(),
            final(self).spec_trace_enabled() == old(self).spec_trace_enabled(),
            final(self).spec_natives().spec_get(name@) == Some(callback),
            forall|k: Seq<char>| k != name@ ==> #[trigger] final(self).spec_natives().spec_get(k) == old(self).spec_natives().spec_get(k),
    {
        self.native_functions.insert(name.to_owned(), callback);
    }

    /// Makes `value` a global under `name`.
    pub fn add_global(&mut self, name: &str, value: Variant)
        ensures
            final(self).spec_program().instructions == old(self).spec_program().instructions,
            final(self).spec_natives() == old(self).spec_natives(),
            final(self).spec_trace_enabled() == old(self).spec_trace_enabled(),
            final(self).spec_program().globals.spec_get(name@) == Some(value),
            forall|k: Seq<char>| k != name@ ==> #[trigger] final(self).spec_program().globals.spec_get(k) == old(self).spec_program().globals.spec_get(k),
    {
        self.program.globals.insert(name.to_owned(), value);
    }

    /// The state in which a run of the function `entry` starts: its
    /// parameters are its first variables.
    pub fn begin(&self, entry: &str, parameters: Option<Vec<Variant>>) -> (r: Result<Execution, RuntimeError>)
        ensures
            match self.spec_program().globals.spec_get(entry@) {
                Some(Variant::FunctionPointer(fp)) => r matches Ok(e) && {
                    &&& e.ip == fp
                    &&& e.frames@.len() == 0
                    &&& e.stack@.len() == 0
                    &&& e.trace@.len() == 0
                    &&& e.heap.spec_objects().len() == 0
                    &&& e.current.return_address == 0
                    &&& e.current.stack_pointer == 0
                    &&& e.current.variables@ == match parameters {
                        Some(p) => p@,
                        None => Seq::<Variant>::empty(),
                    }
                },
                _ => r matches Err(RuntimeError::EntryPointNotFound(name)) && name@ == entry@,
            },
    {
        let ip = match self.program.globals.get(entry) {
            Some(Variant::FunctionPointer(fp)) => *fp,
            _ => return Err(RuntimeError::EntryPointNotFound(entry.to_owned())),
        };
        let variables = match parameters {
            Some(p) => p,
            None => Vec::new(),
        };
        Ok(Execution {
            frames: Vec::new(),
            stack: Vec::new(),
            trace: Vec::new(),
            current: Frame { return_address: 0, stack_pointer: 0, variables },
            ip,
            heap: Heap::new(),
        })
    }
}

/// Went on to the next instruction with only the stack changed, to `s`.
pub open spec fn went_on_with(e0: Execution, e1: Execution, s: Seq<Variant>) -> bool {
    &&& e1.ip == e0.ip + 1
    &&& e1.stack@ == s
    &&& e1.frames == e0.frames
    &&& e1.trace == e0.trace
    &&& e1.current == e0.current
    &&& e1.heap == e0.heap
}

/// Went on to the next instruction having pushed a value that `ok` accepts.
pub open spec fn pushed(e0: Execution, e1: Execution, ok: spec_fn(Variant) -> bool) -> bool {
    &&& e1.ip == e0.ip + 1
    &&& e1.stack@.len() == e0.stack@.len() + 1
    &&& e1.stack@.take(e0.stack@.len() as int) == e0.stack@
    &&& ok(e1.stack@.last())
    &&& e1.frames == e0.frames
    &&& e1.trace == e0.trace
    &&& e1.current == e0.current
    &&& e1.heap == e0.heap
}

/// Jumped to `target` with nothing else changed but the stack, now `s`.
pub open spec fn jumped(e0: Execution, e1: Execution, target: int, s: Seq<Variant>) -> bool {
    &&& e1.ip == target
    &&& e1.stack@ == s
    &&& e1.frames == e0.frames
    &&& e1.trace == e0.trace
    &&& e1.current == e0.current
    &&& e1.heap == e0.heap
}

/// The operator an instruction applies to the two values on top of the stack.
pub open spec fn operator_of(ins: Instruction) -> Option<BinaryOp> {
    match ins {
        Instruction::Add => Some(BinaryOp::Add),
        Instruction::Sub => Some(BinaryOp::Sub),
        Instruction::Multiply => Some(BinaryOp::Multiply),
        Instruction::Divide => Some(BinaryOp::Divide),
        Instruction::Pow => Some(BinaryOp::Pow),
        Instruction::And => Some(BinaryOp::And),
        Instruction::Or => Some(BinaryOp::Or),
        Instruction::Equal => Some(BinaryOp::Equal),
        Instruction::NotEqual => Some(BinaryOp::NotEqual),
        Instruction::LessThan => Some(BinaryOp::LessThan),
        Instruction::LessThanOrEqual => Some(BinaryOp::LessThanOrEqual),
        Instruction::GreaterThan => Some(BinaryOp::GreaterThan),
        Instruction::GreaterThanOrEqual => Some(BinaryOp::GreaterThanOrEqual),
        _ => None,
    }
}

/// Whether `a op b` is a floating-point operation left to the host.
pub open spec fn is_float_operation(op: BinaryOp, a: Variant, b: Variant) -> bool {
    (a is Float || b is Float) && op != BinaryOp::And && op != BinaryOp::Or
}

/// A binary operator on the two values on top of the stack, the right
/// operand on top.
pub open spec fn operator_post(op: BinaryOp, e0: Execution, e1: Execution, r: Result<Step, RuntimeError>) -> bool {
    let s = e0.stack@;
    let n = s.len();
    if n < 2 {
        r == Err::<Step, RuntimeError>(RuntimeError::ExpectedValueOnStack)
    } else {
        let lhs = s[n - 2];
        let rhs = s[n - 1];
        if is_float_operation(op, lhs, rhs) {
            &&& r matches Ok(Step::Float { op: o, lhs: a, rhs: b }) && o == op && a == lhs && b == rhs
            &&& went_on_with(e0, e1, s.take(n - 2))
        } else {
            &&& r matches Ok(Step::Next)
            &&& e1.stack@.len() == n - 1
            &&& e1.stack@.take(n - 2) == s.take(n - 2)
            &&& binary_result(op, lhs, rhs, Outcome::Value(e1.stack@.last()))
            &&& e1.ip == e0.ip + 1
            &&& e1.frames == e0.frames
            &&& e1.trace == e0.trace
            &&& e1.current == e0.current
            &&& e1.heap == e0.heap
        }
    }
}

/// What executing the instruction `ins` does, for the instructions that
/// touch only the stack, the stack trace and the instruction pointer.
pub open spec fn simple_post(t: Thread, ins: Instruction, e0: Execution, e1: Execution, r: Result<Step, RuntimeError>) -> bool {
    let s = e0.stack@;
    let n = s.len();
    match ins {
        Instruction::NoOperation => r matches Ok(Step::Next) && went_on_with(e0, e1, s),
        Instruction::Debug(text) => (r matches Ok(Step::Debug(d)) && d@ == text@) && went_on_with(e0, e1, s),
        Instruction::Print => if n == 0 {
            r == Err::<Step, RuntimeError>(RuntimeError::ExpectedValueOnStack)
        } else {
            (r matches Ok(Step::Print(v)) && v == s[n - 1]) && went_on_with(e0, e1, s.drop_last())
        },
        Instruction::Sleep => if n == 0 {
            r == Err::<Step, RuntimeError>(RuntimeError::ExpectedValueOnStack)
        } else {
            match s[n - 1] {
                Variant::Integer(ms) => (r matches Ok(Step::Sleep(m)) && m == ms) && went_on_with(e0, e1, s.drop_last()),
                _ => r == Err::<Step, RuntimeError>(RuntimeError::ExpectedIntegerOnStack),
            }
        },
        Instruction::PushNull => r matches Ok(Step::Next) && went_on_with(e0, e1, s.push(Variant::Null)),
        Instruction::PushInteger(v) => r matches Ok(Step::Next) && went_on_with(e0, e1, s.push(Variant::Integer(v))),
        Instruction::PushFloat(text) => (r matches Ok(Step::ParseFloat(t)) && t@ == text@) && went_on_with(e0, e1, s),
        Instruction::PushBool(v) => r matches Ok(Step::Next) && went_on_with(e0, e1, s.push(Variant::Bool(v))),
        Instruction::PushFunctionPointer(v) => r matches Ok(Step::Next) && went_on_with(
            e0,
            e1,
            s.push(Variant::FunctionPointer(v)),
        ),
        Instruction::PushString(v) => r matches Ok(Step::Next) && pushed(
            e0,
            e1,
            |x: Variant| x matches Variant::String(w) && w@ == v@,
        ),
        Instruction::PushIdentifier(v) => r matches Ok(Step::Next) && pushed(
            e0,
            e1,
            |x: Variant| x matches Variant::Identifier(w) && w@ == v@,
        ),
        Instruction::PushFunctionRef(v) => r matches Ok(Step::Next) && pushed(
            e0,
            e1,
            |x: Variant| x matches Variant::FunctionRef(w) && w@ == v@,
        ),
        Instruction::PushStackTrace(_) => {
            &&& r matches Ok(Step::Next)
            &&& e1.ip == e0.ip + 1
            &&& e1.stack == e0.stack
            &&& e1.frames == e0.frames
            &&& e1.current == e0.current
            &&& e1.heap == e0.heap
            &&& if t.spec_trace_enabled() {
                e1.trace@.len() == e0.trace@.len() + 1 && e1.trace@.take(e0.trace@.len() as int) == e0.trace@
            } else {
                e1.trace == e0.trace
            }
        },
        Instruction::PopStackTrace => {
            &&& r matches Ok(Step::Next)
            &&& e1.ip == e0.ip + 1
            &&& e1.stack == e0.stack
            &&& e1.frames == e0.frames
            &&& e1.current == e0.current
            &&& e1.heap == e0.heap
            &&& if t.spec_trace_enabled() {
                e1.trace@ == if e0.trace@.len() > 0 {
                    e0.trace@.drop_last()
                } else {
                    e0.trace@
                }
            } else {
                e1.trace == e0.trace
            }
        },
        Instruction::JumpForward(d) => if e0.ip + d > usize::MAX {
            r == Err::<Step, RuntimeError>(RuntimeError::InstructionPointerOutOfBounds(e0.ip))
        } else {
            r matches Ok(Step::Next) && jumped(e0, e1, e0.ip + d, s)
        },
        Instruction::JumpBackward(d) => if d > e0.ip {
            r == Err::<Step, RuntimeError>(RuntimeError::InstructionPointerOutOfBounds(e0.ip))
        } else {
            r matches Ok(Step::Next) && jumped(e0, e1, e0.ip - d, s)
        },
        Instruction::JumpForwardIfFalse(d) => if n == 0 {
            r == Err::<Step, RuntimeError>(RuntimeError::ExpectedValueOnStack)
        } else if s[n - 1] == Variant::Bool(false) {
            if e0.ip + d > usize::MAX {
                r == Err::<Step, RuntimeError>(RuntimeError::InstructionPointerOutOfBounds(e0.ip))
            } else {
                r matches Ok(Step::Next) && jumped(e0, e1, e0.ip + d, s.drop_last())
            }
        } else {
            r matches Ok(Step::Next) && went_on_with(e0, e1, s.drop_last())
        },
        Instruction::Not => if n == 0 {
            r == Err::<Step, RuntimeError>(RuntimeError::ExpectedValueOnStack)
        } else {
            r matches Ok(Step::Next) && went_on_with(e0, e1, s.drop_last().push(not_result(s[n - 1])))
        },
        _ => match operator_of(ins) {
            Some(op) => operator_post(op, e0, e1, r),
            None => false,
        },
    }
}

/// Takes the value on top of the stack.
fn pop(stack: &mut Vec<Variant>) -> (r: Result<Variant, RuntimeError>)
    ensures
        old(stack)@.len() > 0 ==> r == Ok::<Variant, RuntimeError>(old(stack)@.last()) && final(stack)@ == old(stack)@.drop_last(),
        old(stack)@.len() == 0 ==> r == Err::<Variant, RuntimeError>(RuntimeError::ExpectedValueOnStack) && final(stack)@ == old(stack)@,
{
    match stack.pop() {
        Some(v) => Ok(v),
        None => Err(RuntimeError::ExpectedValueOnStack),
    }
}

impl Thread {
    /// Applies a binary operator to the two values on top of the stack.
    fn operator(&self, op: BinaryOp, e: &mut Execution) -> (r: Result<Step, RuntimeError>)
        requires
            old(e).ip < usize::MAX,
        ensures
            operator_post(op, *old(e), *final(e), r),
    {
        if e.stack.len() < 2 {
            return Err(RuntimeError::ExpectedValueOnStack);
        }
        let ghost s = e.stack@;
        let rhs = match e.stack.pop() {
            Some(v) => v,
            None => return Err(RuntimeError::ExpectedValueOnStack),
        };
        let lhs = match e.stack.pop() {
            Some(v) => v,
            None => return Err(RuntimeError::ExpectedValueOnStack),
        };
        proof {
            assert(e.stack@ =~= s.take(s.len() - 2));
        }
        match binary(op, &lhs, &rhs) {
            Outcome::Value(v) => {
                e.stack.push(v);
                e.ip = e.ip + 1;
                proof {
                    assert(e.stack@.take(s.len() - 2) =~= s.take(s.len() - 2));
                }
                Ok(Step::Next)
            },
            Outcome::Float => {
                e.ip = e.ip + 1;
                Ok(Step::Float { op, lhs, rhs })
            },
        }
    }
}

/// Went on to the next instruction having replaced the top `k` values of
/// the stack by one that `ok` accepts.
pub open spec fn replaced(e0: Execution, e1: Execution, k: nat, ok: spec_fn(Variant) -> bool) -> bool {
    let n = e0.stack@.len();
    &&& k <= n
    &&& e1.ip == e0.ip + 1
    &&& e1.stack@.len() == n - k + 1
    &&& e1.stack@.take(n - k) == e0.stack@.take(n - k)
    &&& ok(e1.stack@.last())
    &&& e1.frames == e0.frames
    &&& e1.trace == e0.trace
    &&& e1.current == e0.current
    &&& e1.heap == e0.heap
}

/// What the instructions on variables, globals and iterators do.
pub open spec fn variable_post(t: Thread, ins: Instruction, e0: Execution, e1: Execution, r: Result<Step, RuntimeError>) -> bool {
    let s = e0.stack@;
    let n = s.len();
    match ins {
        Instruction::MoveToLocalVariable(i) => if n == 0 {
            r == Err::<Step, RuntimeError>(RuntimeError::ExpectedValueOnStack)
        } else {
            &&& r matches Ok(Step::Next)
            &&& e1.ip == e0.ip + 1
            &&& e1.stack@ == s.drop_last()
            &&& e1.frames == e0.frames
            &&& e1.trace == e0.trace
            &&& e1.heap == e0.heap
            &&& stored(e0.current, e1.current, i, s[n - 1])
        },
        Instruction::LoadLocalVariable(i) => if i < e0.current.variables@.len() {
            r matches Ok(Step::Next) && replaced(
                e0,
                e1,
                0,
                |x: Variant| same_value(e0.current.variables@[i as int], x, DEPTH as nat),
            )
        } else {
            r == Err::<Step, RuntimeError>(RuntimeError::InvalidVariableIndex(i))
        },
        Instruction::LoadGlobal(name) => match t.spec_program().globals.spec_get(name@) {
            Some(v) => r matches Ok(Step::Next) && replaced(e0, e1, 0, |x: Variant| same_value(v, x, DEPTH as nat)),
            None => r matches Err(RuntimeError::GlobalNotFound(g)) && g@ == name@,
        },
        Instruction::IteratorInit => if n == 0 {
            r == Err::<Step, RuntimeError>(RuntimeError::ExpectedValueOnStack)
        } else if !(s[n - 1] is Integer) {
            r == Err::<Step, RuntimeError>(RuntimeError::ExpectedIntegerOnStack)
        } else if n == 1 {
            r == Err::<Step, RuntimeError>(RuntimeError::ExpectedValueOnStack)
        } else if !(s[n - 2] is Integer) {
            r == Err::<Step, RuntimeError>(RuntimeError::ExpectedIntegerOnStack)
        } else if n == 2 {
            r == Err::<Step, RuntimeError>(RuntimeError::ExpectedValueOnStack)
        } else {
            r matches Ok(Step::Next) && replaced(
                e0,
                e1,
                3,
                |x: Variant| x matches Variant::Iterator(c) && {
                    &&& c.spec_index() == 0
                    &&& Variant::Integer(c.spec_start()) == s[n - 1]
                    &&& Variant::Integer(c.spec_step()) == s[n - 2]
                    &&& c.spec_target() == s[n - 3]
                },
            )
        },
        Instruction::IteratorNext(slot) => if n == 0 {
            r == Err::<Step, RuntimeError>(RuntimeError::ExpectedValueOnStack)
        } else {
            match s[n - 1] {
                Variant::Iterator(c0) => {
                    &&& r matches Ok(Step::Next)
                    &&& e1.ip == e0.ip + 1
                    &&& e1.frames == e0.frames
                    &&& e1.trace == e0.trace
                    &&& e1.heap == e0.heap
                    &&& e1.stack@.take(n - 1) == s.take(n - 1)
                    &&& if e1.stack@.len() == n {
                        &&& e1.stack@[n - 1] == Variant::Bool(false)
                        &&& counter_next(*c0, *c0, None)
                        &&& e1.current == e0.current
                    } else {
                        &&& e1.stack@.len() == n + 1
                        &&& e1.stack@[n as int] == Variant::Bool(true)
                        &&& e1.stack@[n - 1] matches Variant::Iterator(c1) && counter_next(
                            *c0,
                            *c1,
                            Some(e1.current.variables@[slot as int]),
                        )
                        &&& stored(e0.current, e1.current, slot, e1.current.variables@[slot as int])
                    }
                },
                _ => r == Err::<Step, RuntimeError>(RuntimeError::ExpectedIteratorOnStack),
            }
        },
        _ => false,
    }
}

impl Thread {
    fn variable(&self, ins: &Instruction, e: &mut Execution) -> (r: Result<Step, RuntimeError>)
        requires
            old(e).ip < usize::MAX,
            ins is MoveToLocalVariable || ins is LoadLocalVariable || ins is LoadGlobal || ins is IteratorInit
                || ins is IteratorNext,
        ensures
            variable_post(*self, *ins, *old(e), *final(e), r),
    {
        let ghost s = e.stack@;
        match ins {
            Instruction::MoveToLocalVariable(i) => {
                let value = pop(&mut e.stack)?;
                e.current.set_variable(*i, value)?;
                e.ip = e.ip + 1;
                Ok(Step::Next)
            },
            Instruction::LoadLocalVariable(i) => {
                let value = e.current.get_variable(*i)?.copy();
                e.stack.push(value);
                e.ip = e.ip + 1;
                proof {
                    assert(e.stack@.take(s.len() as int) =~= s.take(s.len() as int));
                }
                Ok(Step::Next)
            },
            Instruction::LoadGlobal(name) => {
                match self.program.globals.get(name.as_str()) {
                    Some(v) => {
                        e.stack.push(v.copy());
                        e.ip = e.ip + 1;
                        proof {
                            assert(e.stack@.take(s.len() as int) =~= s.take(s.len() as int));
                        }
                        Ok(Step::Next)
                    },
                    None => Err(RuntimeError::GlobalNotFound(name.clone())),
                }
            },
            Instruction::IteratorInit => {
                let start = match pop(&mut e.stack)? {
                    Variant::Integer(v) => v,
                    _ => return Err(RuntimeError::ExpectedIntegerOnStack),
                };
                let step = match pop(&mut e.stack)? {
                    Variant::Integer(v) => v,
                    _ => return Err(RuntimeError::ExpectedIntegerOnStack),
                };
                let target = pop(&mut e.stack)?;
                let counter = Counter::new(start, step, target);
                e.stack.push(Variant::Iterator(Box::new(counter)));
                e.ip = e.ip + 1;
                proof {
                    assert(e.stack@.take(s.len() - 3) =~= s.take(s.len() - 3));
                }
                Ok(Step::Next)
            },
            Instruction::IteratorNext(slot) => {
                let mut counter = match pop(&mut e.stack)? {
                    Variant::Iterator(c) => c,
                    _ => return Err(RuntimeError::ExpectedIteratorOnStack),
                };
                let ghost c0 = *counter;
                match counter.next() {
                    Some(value) => {
                        let ghost v = value;
                        e.current.set_variable(*slot, value)?;
                        e.stack.push(Variant::Iterator(counter));
                        e.stack.push(Variant::Bool(true));
                        proof {
                            assert(e.stack@.take(s.len() - 1) =~= s.take(s.len() - 1));
                        }
                    },
                    None => {
                        e.stack.push(Variant::Bool(false));
                        proof {
                            assert(e.stack@.take(s.len() - 1) =~= s.take(s.len() - 1));
                        }
                    },
                }
                e.ip = e.ip + 1;
                Ok(Step::Next)
            },
            _ => Err(RuntimeError::InstructionNotImplemented(ins.clone())),
        }
    }
}

/// The error that building a dictionary from the first `j` key-value pairs
/// on top of stack `s` meets, if any; the first pair is on top, its value
/// above its key.
pub open spec fn pairs_error(s: Seq<Variant>, j: nat) -> Option<RuntimeError>
    decreases j,
{
    if j == 0 {
        None
    } else {
        match pairs_error(s, (j - 1) as nat) {
            Some(e) => Some(e),
            None => {
                let i = j - 1;
                if s.len() < 2 * i + 2 {
                    Some(RuntimeError::ExpectedValueOnStack)
                } else if !(s[s.len() - 2 - 2 * i] is String) {
                    Some(RuntimeError::InvalidDictionaryKey)
                } else {
                    None
                }
            },
        }
    }
}

proof fn lemma_pairs_error_stays(s: Seq<Variant>, j: nat, m: nat)
    requires
        j <= m,
        pairs_error(s, j) is Some,
    ensures
        pairs_error(s, m) == pairs_error(s, j),
    decreases m - j,
{
    if j < m {
        lemma_pairs_error_stays(s, j, (m - 1) as nat);
    }
}

/// What the dictionary built from the first `j` pairs holds under `k`: the
/// value of the deepest of those pairs with that key.
pub open spec fn pairs_lookup(s: Seq<Variant>, j: nat, k: Seq<char>) -> Option<Variant>
    decreases j,
{
    if j == 0 {
        None
    } else {
        let i = j - 1;
        if s[s.len() - 2 - 2 * i] matches Variant::String(key) && key@ == k {
            Some(s[s.len() - 1 - 2 * i])
        } else {
            pairs_lookup(s, (j - 1) as nat, k)
        }
    }
}

/// Heap `h1` is `h0` with member `k` of object `id` set to `v`, when there is
/// such an object.
pub open spec fn heap_set(h0: Heap, h1: Heap, id: usize, k: Seq<char>, v: Variant) -> bool {
    &&& h1.spec_objects().len() == h0.spec_objects().len()
    &&& forall|j: int| 0 <= j < h0.spec_objects().len() && j != id ==> #[trigger] h1.spec_objects()[j] == h0.spec_objects()[j]
    &&& id < h0.spec_objects().len() ==> {
        &&& h1.spec_objects()[id as int].spec_get(k) == Some(v)
        &&& forall|k2: Seq<char>| k2 != k ==> #[trigger] h1.spec_objects()[id as int].spec_get(k2) == h0.spec_objects()[id as int].spec_get(k2)
    }
}

/// What the instructions on collections do.
pub open spec fn collection_post(ins: Instruction, e0: Execution, e1: Execution, r: Result<Step, RuntimeError>) -> bool {
    let s = e0.stack@;
    let n = s.len();
    match ins {
        Instruction::CreateCollectionAsDictionary(size) => match pairs_error(s, size as nat) {
            Some(err) => r == Err::<Step, RuntimeError>(err),
            None => r matches Ok(Step::Next) && replaced(
                e0,
                e1,
                2 * size as nat,
                |x: Variant| x matches Variant::Dict(d) && d.unique() && forall|k: Seq<char>| #[trigger] d.spec_get(k) == pairs_lookup(s, size as nat, k),
            ),
        },
        Instruction::CreateCollectionAsArray(size) => if n < size {
            r == Err::<Step, RuntimeError>(RuntimeError::ExpectedValueOnStack)
        } else {
            r matches Ok(Step::Next) && replaced(
                e0,
                e1,
                size as nat,
                |x: Variant| x matches Variant::Array(a) && a@ == s.subrange(n - size, n as int),
            )
        },
        Instruction::GetCollectionItem => if n < 2 {
            r == Err::<Step, RuntimeError>(RuntimeError::ExpectedValueOnStack)
        } else {
            let key = s[n - 1];
            match s[n - 2] {
                Variant::Array(items) => match key {
                    Variant::Integer(i) => if 0 <= i < items@.len() {
                        r matches Ok(Step::Next) && replaced(e0, e1, 2, |x: Variant| same_value(items@[i as int], x, DEPTH as nat))
                    } else {
                        r == Err::<Step, RuntimeError>(RuntimeError::InvalidArrayIndex)
                    },
                    _ => r == Err::<Step, RuntimeError>(RuntimeError::InvalidCollectionKey(key)),
                },
                Variant::Object(id) => match key {
                    Variant::Identifier(k) => match member(e0.heap, id, k@) {
                        Some(v) => r matches Ok(Step::Next) && replaced(e0, e1, 2, |x: Variant| same_value(v, x, DEPTH as nat)),
                        None => r == Err::<Step, RuntimeError>(RuntimeError::InvalidObjectMember),
                    },
                    _ => r == Err::<Step, RuntimeError>(RuntimeError::InvalidCollectionKey(key)),
                },
                Variant::Module(m) => match key {
                    Variant::Identifier(k) => match m.spec_get(k@) {
                        Some(v) => r matches Ok(Step::Next) && replaced(e0, e1, 2, |x: Variant| same_value(v, x, DEPTH as nat)),
                        None => r matches Err(RuntimeError::ModuleIndexNotFound(x)) && x@ == k@,
                    },
                    _ => r == Err::<Step, RuntimeError>(RuntimeError::InvalidCollectionKey(key)),
                },
                Variant::Enum(m) => match key {
                    Variant::Identifier(k) => match m.spec_get(k@) {
                        Some(v) => r matches Ok(Step::Next) && replaced(e0, e1, 2, |x: Variant| x == Variant::Integer(v)),
                        None => r matches Err(RuntimeError::EnumIndexNotFound(x)) && x@ == k@,
                    },
                    _ => r == Err::<Step, RuntimeError>(RuntimeError::InvalidCollectionKey(key)),
                },
                _ => r == Err::<Step, RuntimeError>(RuntimeError::InvalidCollection),
            }
        },
        Instruction::SetCollectionItem => if n < 3 {
            r == Err::<Step, RuntimeError>(RuntimeError::ExpectedValueOnStack)
        } else {
            let value = s[n - 1];
            let key = s[n - 2];
            match s[n - 3] {
                Variant::Array(items) => match key {
                    Variant::Integer(i) => if 0 <= i < items@.len() {
                        r matches Ok(Step::Next) && went_on_with(e0, e1, s.take(n - 3))
                    } else {
                        r == Err::<Step, RuntimeError>(RuntimeError::InvalidArrayIndex)
                    },
                    _ => r == Err::<Step, RuntimeError>(RuntimeError::InvalidArrayIndex),
                },
                Variant::Object(id) => match key {
                    Variant::Identifier(k) => {
                        &&& r matches Ok(Step::Next)
                        &&& e1.ip == e0.ip + 1
                        &&& e1.stack@ == s.take(n - 3)
                        &&& e1.frames == e0.frames
                        &&& e1.trace == e0.trace
                        &&& e1.current == e0.current
                        &&& heap_set(e0.heap, e1.heap, id, k@, value)
                    },
                    _ => r == Err::<Step, RuntimeError>(RuntimeError::InvalidObjectMember),
                },
                Variant::Identifier(_) => r matches Err(RuntimeError::InstructionNotImplemented(_)),
                _ => r == Err::<Step, RuntimeError>(RuntimeError::InvalidCollection),
            }
        },
        Instruction::SetArrayItem => if n < 3 {
            r == Err::<Step, RuntimeError>(RuntimeError::ExpectedValueOnStack)
        } else {
            let value = s[n - 1];
            let key = s[n - 2];
            match s[n - 3] {
                Variant::Array(items) => match key {
                    Variant::Integer(i) => if 0 <= i < items@.len() {
                        r matches Ok(Step::Next) && replaced(
                            e0,
                            e1,
                            3,
                            |x: Variant| x matches Variant::Array(a) && a@ == items@.update(i as int, value),
                        )
                    } else {
                        r == Err::<Step, RuntimeError>(RuntimeError::InvalidArrayIndex)
                    },
                    _ => r == Err::<Step, RuntimeError>(RuntimeError::InvalidArrayIndex),
                },
                _ => r == Err::<Step, RuntimeError>(RuntimeError::InvalidCollection),
            }
        },
        _ => false,
    }
}

/// The position `i` in a sequence of length `len`, when there is one.
fn position(i: i64, len: usize) -> (r: Option<usize>)
    ensures
        match r {
            Some(j) => 0 <= i < len && j == i,
            None => !(0 <= i < len),
        },
{
    if i < 0 {
        return None;
    }
    let u = i as u64;
    if u >= len as u64 {
        return None;
    }
    Some(u as usize)
}

impl Thread {
    fn collection(&self, ins: &Instruction, e: &mut Execution) -> (r: Result<Step, RuntimeError>)
        requires
            old(e).ip < usize::MAX,
            ins is CreateCollectionAsDictionary || ins is CreateCollectionAsArray || ins is GetCollectionItem
                || ins is SetCollectionItem || ins is SetArrayItem,
        ensures
            collection_post(*ins, *old(e), *final(e), r),
    {
        let ghost s = e.stack@;
        let ghost n = s.len();
        match ins {
            Instruction::CreateCollectionAsDictionary(size) => {
                let mut items: Table<Variant> = Table::new();
                let mut j: usize = 0;
                while j < *size
                    invariant
                        s == old(e).stack@,
                        n == s.len(),
                        j <= *size,
                        2 * j <= n,
                        e.stack@ == s.take(n - 2 * j),
                        pairs_error(s, j as nat) is None,
                        forall|k: Seq<char>| #[trigger] items.spec_get(k) == pairs_lookup(s, j as nat, k),
                        items.unique(),
                        e.ip == old(e).ip,
                        e.frames == old(e).frames,
                        e.trace == old(e).trace,
                        e.current == old(e).current,
                        e.heap == old(e).heap,
                        *ins == Instruction::CreateCollectionAsDictionary(*size),
                    decreases *size - j,
                {
                    if e.stack.len() < 2 {
                        proof {
                            lemma_pairs_error_stays(s, (j + 1) as nat, *size as nat);
                        }
                        return Err(RuntimeError::ExpectedValueOnStack);
                    }
                    let value = pop(&mut e.stack)?;
                    let key = pop(&mut e.stack)?;
                    match key {
                        Variant::String(k) => {
                            items.insert(k, value);
                        },
                        _ => {
                            proof {
                                lemma_pairs_error_stays(s, (j + 1) as nat, *size as nat);
                            }
                            return Err(RuntimeError::InvalidDictionaryKey);
                        },
                    }
                    j = j + 1;
                    proof {
                        assert(e.stack@ =~= s.take(n - 2 * j));
                    }
                }
                let ghost before = e.stack@;
                e.stack.push(Variant::Dict(items));
                e.ip = e.ip + 1;
                proof {
                    assert(e.stack@.take(n - 2 * *size) =~= s.take(n - 2 * *size));
                }
                Ok(Step::Next)
            },
            Instruction::CreateCollectionAsArray(size) => {
                if e.stack.len() < *size {
                    return Err(RuntimeError::ExpectedValueOnStack);
                }
                let items = e.stack.split_off(e.stack.len() - *size);
                e.stack.push(Variant::Array(items));
                e.ip = e.ip + 1;
                proof {
                    assert(e.stack@.take(n - *size) =~= s.take(n - *size));
                }
                Ok(Step::Next)
            },
            Instruction::GetCollectionItem => {
                let key = pop(&mut e.stack)?;
                let collection = pop(&mut e.stack)?;
                let item = match &collection {
                    Variant::Array(items) => match &key {
                        Variant::Integer(i) => match position(*i, items.len()) {
                            Some(j) => items[j].copy(),
                            None => return Err(RuntimeError::InvalidArrayIndex),
                        },
                        _ => return Err(RuntimeError::InvalidCollectionKey(key)),
                    },
                    Variant::Object(id) => match &key {
                        Variant::Identifier(k) => {
                            let found = match e.heap.get(*id) {
                                Some(object) => object.get(k.as_str()),
                                None => None,
                            };
                            match found {
                                Some(v) => v.copy(),
                                None => return Err(RuntimeError::InvalidObjectMember),
                            }
                        },
                        _ => return Err(RuntimeError::InvalidCollectionKey(key)),
                    },
                    Variant::Module(m) => match &key {
                        Variant::Identifier(k) => match m.get(k.as_str()) {
                            Some(v) => v.copy(),
                            None => return Err(RuntimeError::ModuleIndexNotFound(k.clone())),
                        },
                        _ => return Err(RuntimeError::InvalidCollectionKey(key)),
                    },
                    Variant::Enum(m) => match &key {
                        Variant::Identifier(k) => match m.get(k.as_str()) {
                            Some(v) => Variant::Integer(*v),
                            None => return Err(RuntimeError::EnumIndexNotFound(k.clone())),
                        },
                        _ => return Err(RuntimeError::InvalidCollectionKey(key)),
                    },
                    _ => return Err(RuntimeError::InvalidCollection),
                };
                e.stack.push(item);
                e.ip = e.ip + 1;
                proof {
                    assert(e.stack@.take(n - 2) =~= s.take(n - 2));
                }
                Ok(Step::Next)
            },
            Instruction::SetCollectionItem => {
                let value = pop(&mut e.stack)?;
                let key = pop(&mut e.stack)?;
                let collection = pop(&mut e.stack)?;
                match collection {
                    Variant::Array(items) => match key {
                        Variant::Integer(i) => match position(i, items.len()) {
                            Some(_) => {},
                            None => return Err(RuntimeError::InvalidArrayIndex),
                        },
                        _ => return Err(RuntimeError::InvalidArrayIndex),
                    },
                    Variant::Object(id) => match key {
                        Variant::Identifier(k) => {
                            e.heap.set_member(id, k, value);
                        },
                        _ => return Err(RuntimeError::InvalidObjectMember),
                    },
                    Variant::Identifier(_) => return Err(RuntimeError::InstructionNotImplemented(ins.clone())),
                    _ => return Err(RuntimeError::InvalidCollection),
                }
                e.ip = e.ip + 1;
                proof {
                    assert(e.stack@ =~= s.take(n - 3));
                }
                Ok(Step::Next)
            },
            Instruction::SetArrayItem => {
                let value = pop(&mut e.stack)?;
                let key = pop(&mut e.stack)?;
                let collection = pop(&mut e.stack)?;
                match collection {
                    Variant::Array(mut items) => match key {
                        Variant::Integer(i) => match position(i, items.len()) {
                            Some(j) => {
                                items.set(j, value);
                                e.stack.push(Variant::Array(items));
                            },
                            None => return Err(RuntimeError::InvalidArrayIndex),
                        },
                        _ => return Err(RuntimeError::InvalidArrayIndex),
                    },
                    _ => return Err(RuntimeError::InvalidCollection),
                }
                e.ip = e.ip + 1;
                proof {
                    assert(e.stack@.take(n - 3) =~= s.take(n - 3));
                }
                Ok(Step::Next)
            },
            _ => Err(RuntimeError::InstructionNotImplemented(ins.clone())),
        }
    }
}

/// The calls on which a native function of the library is defined.
pub open spec fn native_accepts(f: NativeFunction, h: Heap, p: Seq<Variant>) -> bool {
    match f {
        NativeFunction::DictionaryKeys => dict_keys_accepts(h, p),
        NativeFunction::DictionaryValues => dict_values_accepts(h, p),
        NativeFunction::DictionaryLength => dict_length_accepts(h, p),
        NativeFunction::DictionaryRemove => dict_remove_accepts(h, p),
        NativeFunction::DictionaryClear => dict_clear_accepts(h, p),
        NativeFunction::StringLength => string_length_accepts(h, p),
        NativeFunction::MathMax => math_max_accepts(p),
        NativeFunction::MathMin => math_min_accepts(p),
        NativeFunction::MathAbs => math_abs_accepts(p),
        _ => true,
    }
}

/// What a native function of the library returns for arguments `p`, and how
/// it leaves the heap.
pub open spec fn native_post(f: NativeFunction, h0: Heap, h1: Heap, p: Seq<Variant>, res: Result<Option<Variant>, RuntimeError>) -> bool {
    match f {
        NativeFunction::DictionaryConstructor => dict_constructor_post(h0, h1, p, res),
        NativeFunction::DictionarySet => dict_set_post(h0, h1, p, res),
        NativeFunction::DictionaryRemove => dict_remove_post(h0, h1, p, res),
        NativeFunction::DictionaryClear => dict_clear_post(h0, h1, p, res),
        NativeFunction::StringConstructor => string_constructor_post(h0, h1, p, res),
        NativeFunction::DictionaryGet => h1 == h0 && dict_get_post(h0, h0, p, res),
        NativeFunction::DictionaryLength => h1 == h0 && dict_length_post(h0, h0, p, res),
        NativeFunction::DictionaryKeys => h1 == h0 && dict_keys_post(h0, h0, p, res),
        NativeFunction::DictionaryValues => h1 == h0 && dict_values_post(h0, h0, p, res),
        NativeFunction::DictionaryContainsKey => h1 == h0 && dict_contains_key_post(h0, h0, p, res),
        NativeFunction::StringLength => h1 == h0 && string_length_post(h0, h0, p, res),
        NativeFunction::MathMax => h1 == h0 && math_max_post(p, res),
        NativeFunction::MathMin => h1 == h0 && math_min_post(p, res),
        NativeFunction::MathAbs => h1 == h0 && math_abs_post(p, res),
        NativeFunction::Host => false,
    }
}

/// Whether a native function of the library is defined on these arguments.
fn accepts(f: NativeFunction, heap: &Heap, p: &Vec<Variant>) -> (r: bool)
    ensures
        r == native_accepts(f, *heap, p@),
{
    match f {
        NativeFunction::DictionaryKeys | NativeFunction::DictionaryValues | NativeFunction::DictionaryLength
        | NativeFunction::DictionaryClear => p.len() > 0,
        NativeFunction::DictionaryRemove => {
            if p.len() == 0 {
                false
            } else if p.len() == 1 {
                get_object_value(heap, p).is_err()
            } else {
                true
            }
        },
        NativeFunction::StringLength => match p.get(0) {
            Some(Variant::Object(id)) => match heap.get(*id) {
                Some(object) => object.contains_key(crate::variant::INTERNAL_CLASS_VALUE),
                None => false,
            },
            _ => true,
        },
        NativeFunction::MathMax | NativeFunction::MathMin => {
            if p.len() < 2 {
                false
            } else {
                match &p[1] {
                    Variant::Integer(_) => p.len() > 2,
                    _ => true,
                }
            }
        },
        NativeFunction::MathAbs => {
            if p.len() < 2 {
                false
            } else {
                match &p[1] {
                    Variant::Integer(i) => *i != i64::MIN,
                    _ => true,
                }
            }
        },
        _ => true,
    }
}

/// Runs a native function of the library.
fn call_native(f: NativeFunction, heap: &mut Heap, p: Vec<Variant>) -> (r: Result<Option<Variant>, RuntimeError>)
    requires
        f != NativeFunction::Host,
        native_accepts(f, *old(heap), p@),
    ensures
        native_post(f, *old(heap), *final(heap), p@, r),
{
    match f {
        NativeFunction::DictionaryConstructor => dict_constructor(heap, p),
        NativeFunction::DictionarySet => dict_set(heap, p),
        NativeFunction::DictionaryRemove => dict_remove(heap, p),
        NativeFunction::DictionaryClear => dict_clear(heap, p),
        NativeFunction::StringConstructor => string_constructor(heap, p),
        NativeFunction::DictionaryGet => dict_get(heap, p),
        NativeFunction::DictionaryLength => dict_length(heap, p),
        NativeFunction::DictionaryKeys => dict_keys(heap, p),
        NativeFunction::DictionaryValues => dict_values(heap, p),
        NativeFunction::DictionaryContainsKey => dict_contains_key(heap, p),
        NativeFunction::StringLength => string_length(heap, p),
        NativeFunction::MathMax => math_max(p),
        NativeFunction::MathMin => math_min(p),
        NativeFunction::MathAbs => math_abs(p),
        NativeFunction::Host => Err(RuntimeError::UnknownNativeParameterToken),
    }
}

/// What `LoadMember` does: the value on top of the stack is replaced by a
/// copy of its member, followed by the owner when it is a class or module, or
/// an object whose member is a function.
pub open spec fn member_post(ins: Instruction, e0: Execution, e1: Execution, r: Result<Step, RuntimeError>) -> bool {
    let s = e0.stack@;
    let n = s.len();
    match ins {
        Instruction::LoadMember(name) => if n == 0 {
            r == Err::<Step, RuntimeError>(RuntimeError::ExpectedValueOnStack)
        } else {
            let parent = s[n - 1];
            let found = match parent {
                Variant::Object(id) => member(e0.heap, id, name@),
                Variant::Class(c) => c.spec_get(name@),
                Variant::Module(m) => m.spec_get(name@),
                _ => None,
            };
            if !(parent is Object || parent is Class || parent is Module) {
                r == Err::<Step, RuntimeError>(RuntimeError::ExpectedObjectOnStack)
            } else {
                match found {
                    None => r matches Err(RuntimeError::MethodNotFound(m)) && m@ == name@,
                    Some(v) => {
                        &&& r matches Ok(Step::Next)
                        &&& e1.ip == e0.ip + 1
                        &&& e1.frames == e0.frames
                        &&& e1.trace == e0.trace
                        &&& e1.current == e0.current
                        &&& e1.heap == e0.heap
                        &&& e1.stack@.take(n - 1) == s.take(n - 1)
                        &&& same_value(v, e1.stack@[n - 1], DEPTH as nat)
                        &&& if !(parent is Object) || v is FunctionPointer || v is NativeFunctionRef {
                            e1.stack@.len() == n + 1 && e1.stack@[n as int] == parent
                        } else {
                            e1.stack@.len() == n
                        }
                    },
                }
            }
        },
        _ => false,
    }
}

/// What `Return` does: back to the caller's frame with the stack cut to
/// where it stood at the call (keeping the returned value), or, from the
/// outermost function, the end of the run.
pub open spec fn return_post(ins: Instruction, e0: Execution, e1: Execution, r: Result<Step, RuntimeError>) -> bool {
    let s = e0.stack@;
    let n = s.len();
    match ins {
        Instruction::Return { with_value } => if e0.frames@.len() > 0 {
            let keep = e0.current.stack_pointer + if with_value {
                1int
            } else {
                0int
            };
            &&& r matches Ok(Step::Next)
            &&& e1.ip == e0.current.return_address
            &&& e1.frames@ == e0.frames@.drop_last()
            &&& e1.current == e0.frames@.last()
            &&& e1.trace == e0.trace
            &&& e1.heap == e0.heap
            &&& e1.stack@ == if keep < n {
                s.take(keep)
            } else {
                s
            }
        } else if with_value {
            if n == 0 {
                r == Err::<Step, RuntimeError>(RuntimeError::ExpectedValueOnStack)
            } else {
                r matches Ok(Step::Finished(Some(v))) && v == s[n - 1]
            }
        } else {
            r matches Ok(Step::Finished(None))
        },
        _ => false,
    }
}

/// Heap `h1` is `h0` with one more object, a copy of the members `c`.
pub open spec fn allocated(h0: Heap, h1: Heap, c: Table<Variant>) -> bool {
    &&& h1.spec_objects().len() == h0.spec_objects().len() + 1
    &&& h1.spec_objects().take(h0.spec_objects().len() as int) == h0.spec_objects()
    &&& same_table(c, h1.spec_objects().last(), c.spec_len(), DEPTH as nat)
}

/// Calling a native function `f` registered as `name` with arguments `args`,
/// the stack cut down to `base` and the heap at `h`.
pub open spec fn native_call_post(
    f: NativeFunction,
    name: Seq<char>,
    e0: Execution,
    e1: Execution,
    r: Result<Step, RuntimeError>,
    base: Seq<Variant>,
    h: Heap,
    args: Seq<Variant>,
) -> bool {
    let same_rest = e1.ip == e0.ip + 1 && e1.frames == e0.frames && e1.trace == e0.trace && e1.current == e0.current;
    if f == NativeFunction::Host {
        &&& r matches Ok(Step::Native { name: m, args: a }) && m@ == name && a@ == args
        &&& same_rest
        &&& e1.stack@ == base
        &&& e1.heap == h
    } else if !native_accepts(f, h, args) {
        r == Err::<Step, RuntimeError>(RuntimeError::UnknownNativeParameterToken)
    } else {
        ||| r matches Err(err) && native_post(f, h, e1.heap, args, Err(err))
        ||| {
            &&& r matches Ok(Step::Next)
            &&& same_rest
            &&& e1.stack@ == base
            &&& native_post(f, h, e1.heap, args, Ok(None))
        }
        ||| {
            &&& r matches Ok(Step::Next)
            &&& same_rest
            &&& e1.stack@.len() == base.len() + 1
            &&& e1.stack@.take(base.len() as int) == base
            &&& native_post(f, h, e1.heap, args, Ok(Some(e1.stack@.last())))
        }
    }
}

/// Calling (a copy of) `target` with arguments `args`, the stack cut down to
/// `base` and the heap at `h`: a function pointer is entered in a new frame
/// whose variables are the arguments; a registered native function is run.
pub open spec fn invoke_post(
    t: Thread,
    e0: Execution,
    e1: Execution,
    r: Result<Step, RuntimeError>,
    base: Seq<Variant>,
    h: Heap,
    target: Variant,
    args: Seq<Variant>,
) -> bool {
    match target {
        Variant::FunctionPointer(fp) => {
            &&& r matches Ok(Step::Next)
            &&& e1.ip == fp
            &&& e1.stack@ == base
            &&& e1.frames@ == e0.frames@.push(e0.current)
            &&& e1.current.return_address == e0.ip + 1
            &&& e1.current.stack_pointer == base.len()
            &&& e1.current.variables@ == args
            &&& e1.trace == e0.trace
            &&& e1.heap == h
        },
        Variant::NativeFunctionRef(nm) => match t.spec_natives().spec_get(nm@) {
            Some(f) => native_call_post(f, nm@, e0, e1, r, base, h, args),
            None => r matches Err(RuntimeError::InvalidCallDestination(x)) && same_value(target, x, DEPTH as nat),
        },
        _ => r matches Err(RuntimeError::InvalidCallDestination(x)) && same_value(target, x, DEPTH as nat),
    }
}

/// What `Call` does: takes the arguments and the callee off the stack and
/// calls a function pointer, a native function, a global function by name,
/// or a class's constructor on a new object, which becomes the first
/// argument.
pub open spec fn call_post(t: Thread, ins: Instruction, e0: Execution, e1: Execution, r: Result<Step, RuntimeError>) -> bool {
    let s = e0.stack@;
    let n = s.len();
    match ins {
        Instruction::Call(argc) => if n < argc + 1 {
            r == Err::<Step, RuntimeError>(RuntimeError::ExpectedValueOnStack)
        } else {
            let base = s.take(n - argc - 1);
            let args = s.subrange(n - argc, n as int);
            let callee = s[n - argc - 1];
            match callee {
                Variant::FunctionRef(name) => match t.spec_program().globals.spec_get(name@) {
                    Some(g) => invoke_post(t, e0, e1, r, base, e0.heap, g, args),
                    None => r == Err::<Step, RuntimeError>(RuntimeError::InvalidCallOnStack(callee)),
                },
                Variant::Class(c) => match c.spec_get(CLASS_CONSTRUCTOR_NAME@) {
                    None => r == Err::<Step, RuntimeError>(RuntimeError::ConstructorNotFound),
                    Some(k) => exists|h: Heap|
                        #![trigger allocated(e0.heap, h, c)]
                        allocated(e0.heap, h, c) && invoke_post(
                            t,
                            e0,
                            e1,
                            r,
                            base,
                            h,
                            k,
                            seq![Variant::Object(e0.heap.spec_objects().len() as usize)] + args,
                        ),
                },
                Variant::FunctionPointer(_) => invoke_post(t, e0, e1, r, base, e0.heap, callee, args),
                Variant::NativeFunctionRef(_) => invoke_post(t, e0, e1, r, base, e0.heap, callee, args),
                _ => r == Err::<Step, RuntimeError>(RuntimeError::InvalidCallOnStack(callee)),
            }
        },
        _ => false,
    }
}

impl Thread {
    fn load_member(&self, ins: &Instruction, e: &mut Execution) -> (r: Result<Step, RuntimeError>)
        requires
            old(e).ip < usize::MAX,
            ins is LoadMember,
        ensures
            member_post(*ins, *old(e), *final(e), r),
    {
        let ghost s = e.stack@;
        let ghost n = s.len();
        let name = match ins {
            Instruction::LoadMember(name) => name,
            _ => return Err(RuntimeError::InstructionNotImplemented(ins.clone())),
        };
        let parent = pop(&mut e.stack)?;
        match &parent {
            Variant::Object(id) => {
                let found = match e.heap.get(*id) {
                    Some(object) => object.get(name.as_str()),
                    None => None,
                };
                let v = match found {
                    Some(v) => v.copy(),
                    None => return Err(RuntimeError::MethodNotFound(name.clone())),
                };
                let is_function = match &v {
                    Variant::FunctionPointer(_) => true,
                    Variant::NativeFunctionRef(_) => true,
                    _ => false,
                };
                e.stack.push(v);
                if is_function {
                    e.stack.push(parent);
                }
            },
            Variant::Class(c) => {
                let v = match c.get(name.as_str()) {
                    Some(v) => v.copy(),
                    None => return Err(RuntimeError::MethodNotFound(name.clone())),
                };
                e.stack.push(v);
                e.stack.push(parent);
            },
            Variant::Module(m) => {
                let v = match m.get(name.as_str()) {
                    Some(v) => v.copy(),
                    None => return Err(RuntimeError::MethodNotFound(name.clone())),
                };
                e.stack.push(v);
                e.stack.push(parent);
            },
            _ => return Err(RuntimeError::ExpectedObjectOnStack),
        }
        e.ip = e.ip + 1;
        proof {
            assert(e.stack@.take(n - 1) =~= s.take(n - 1));
        }
        Ok(Step::Next)
    }

    fn return_from(&self, ins: &Instruction, e: &mut Execution) -> (r: Result<Step, RuntimeError>)
        requires
            ins is Return,
        ensures
            return_post(*ins, *old(e), *final(e), r),
    {
        let ghost s = e.stack@;
        let with_value = match ins {
            Instruction::Return { with_value } => *with_value,
            _ => return Err(RuntimeError::InstructionNotImplemented(ins.clone())),
        };
        match e.frames.pop() {
            Some(frame) => {
                e.ip = e.current.return_address;
                let keep = if with_value {
                    e.current.stack_pointer.saturating_add(1)
                } else {
                    e.current.stack_pointer
                };
                e.stack.truncate(keep);
                proof {
                    if keep as int >= s.len() {
                        assert(e.stack@ =~= s);
                    }
                }
                e.current = frame;
                Ok(Step::Next)
            },
            None => {
                if with_value {
                    let v = pop(&mut e.stack)?;
                    Ok(Step::Finished(Some(v)))
                } else {
                    Ok(Step::Finished(None))
                }
            },
        }
    }
}

impl Thread {
    /// Calls (a copy of) `target`; see `invoke_post`.
    fn invoke(&self, e: &mut Execution, target: Variant, args: Vec<Variant>) -> (r: Result<Step, RuntimeError>)
        requires
            old(e).ip < usize::MAX,
        ensures
            forall|g: Variant| #[trigger] same_value(g, target, DEPTH as nat) ==> invoke_post(
                *self,
                *old(e),
                *final(e),
                r,
                old(e).stack@,
                old(e).heap,
                g,
                args@,
            ),
    {
        let ghost e0 = *e;
        match target {
            Variant::FunctionPointer(fp) => {
                let mut frame = Frame { return_address: e.ip + 1, stack_pointer: e.stack.len(), variables: args };
                std::mem::swap(&mut e.current, &mut frame);
                e.frames.push(frame);
                e.ip = fp;
                Ok(Step::Next)
            },
            Variant::NativeFunctionRef(name) => {
                let f = match self.native_functions.get(name.as_str()) {
                    Some(f) => *f,
                    None => {
                        let x = Variant::NativeFunctionRef(name);
                        proof {
                            assert forall|g: Variant| #[trigger] same_value(g, target, DEPTH as nat) implies same_value(g, x, DEPTH as nat) by {}
                        }
                        return Err(RuntimeError::InvalidCallDestination(x));
                    },
                };
                if f == NativeFunction::Host {
                    e.ip = e.ip + 1;
                    return Ok(Step::Native { name, args });
                }
                if !accepts(f, &e.heap, &args) {
                    return Err(RuntimeError::UnknownNativeParameterToken);
                }
                let ghost base = e.stack@;
                match call_native(f, &mut e.heap, args) {
                    Ok(Some(v)) => {
                        e.stack.push(v);
                        e.ip = e.ip + 1;
                        proof {
                            assert(e.stack@.take(base.len() as int) =~= base);
                        }
                        Ok(Step::Next)
                    },
                    Ok(None) => {
                        e.ip = e.ip + 1;
                        Ok(Step::Next)
                    },
                    Err(err) => Err(err),
                }
            },
            other => {
                proof {
                    assert forall|g: Variant| #[trigger] same_value(g, target, DEPTH as nat) implies same_value(g, other, DEPTH as nat) by {}
                }
                Err(RuntimeError::InvalidCallDestination(other))
            },
        }
    }
}

impl Thread {
    fn call(&self, ins: &Instruction, e: &mut Execution) -> (r: Result<Step, RuntimeError>)
        requires
            old(e).ip < usize::MAX,
            ins is Call,
        ensures
            call_post(*self, *ins, *old(e), *final(e), r),
    {
        let ghost s = e.stack@;
        let ghost e0 = *e;
        let argc = match ins {
            Instruction::Call(argc) => *argc,
            _ => return Err(RuntimeError::InstructionNotImplemented(ins.clone())),
        };
        if e.stack.len() < argc || e.stack.len() - argc < 1 {
            return Err(RuntimeError::ExpectedValueOnStack);
        }
        let mut args = e.stack.split_off(e.stack.len() - argc);
        let callee = pop(&mut e.stack)?;
        proof {
            assert(e.stack@ =~= s.take(s.len() - argc - 1));
        }
        match callee {
            Variant::FunctionRef(name) => {
                let g = match self.program.globals.get(name.as_str()) {
                    Some(g) => g.copy(),
                    None => return Err(RuntimeError::InvalidCallOnStack(Variant::FunctionRef(name))),
                };
                self.invoke(e, g, args)
            },
            Variant::Class(c) => {
                let members = copy_members(&c);
                let object = e.heap.allocate(members);
                let ghost h = e.heap;
                proof {
                    assert(h.spec_objects().take(e0.heap.spec_objects().len() as int) =~= e0.heap.spec_objects());
                    assert(allocated(e0.heap, h, c));
                }
                let ghost plain = args@;
                args.insert(0, object);
                proof {
                    assert(args@ =~= seq![Variant::Object(e0.heap.spec_objects().len() as usize)] + plain);
                }
                let k = match c.get(CLASS_CONSTRUCTOR_NAME) {
                    Some(k) => k.copy(),
                    None => return Err(RuntimeError::ConstructorNotFound),
                };
                self.invoke(e, k, args)
            },
            Variant::FunctionPointer(fp) => {
                let target = Variant::FunctionPointer(fp);
                proof {
                    assert(same_value(target, target, DEPTH as nat));
                }
                self.invoke(e, target, args)
            },
            Variant::NativeFunctionRef(name) => {
                let target = Variant::NativeFunctionRef(name);
                proof {
                    assert(same_value(target, target, DEPTH as nat));
                }
                self.invoke(e, target, args)
            },
            other => Err(RuntimeError::InvalidCallOnStack(other)),
        }
    }
}

/// What executing the instruction at the instruction pointer does. An
/// instruction the machine does not run is an error.
pub open spec fn step_post(t: Thread, e0: Execution, e1: Execution, r: Result<Step, RuntimeError>) -> bool {
    let code = t.spec_program().instructions@;
    if e0.ip >= code.len() {
        r == Err::<Step, RuntimeError>(RuntimeError::InstructionPointerOutOfBounds(e0.ip))
    } else {
        let ins = code[e0.ip as int];
        if ins is MoveToLocalVariable || ins is LoadLocalVariable || ins is LoadGlobal || ins is IteratorInit
            || ins is IteratorNext {
            variable_post(t, ins, e0, e1, r)
        } else if ins is CreateCollectionAsDictionary || ins is CreateCollectionAsArray || ins is GetCollectionItem
            || ins is SetCollectionItem || ins is SetArrayItem {
            collection_post(ins, e0, e1, r)
        } else if ins is LoadMember {
            member_post(ins, e0, e1, r)
        } else if ins is Call {
            call_post(t, ins, e0, e1, r)
        } else if ins is Return {
            return_post(ins, e0, e1, r)
        } else if ins is SetVariableBuffer || ins is LoadClass || ins is CreateObject || ins is Halt {
            r matches Err(RuntimeError::InstructionNotImplemented(_))
        } else {
            simple_post(t, ins, e0, e1, r)
        }
    }
}

impl Thread {
    /// Executes the instruction at the instruction pointer.
    pub fn step(&self, e: &mut Execution) -> (r: Result<Step, RuntimeError>)
        ensures
            step_post(*self, *old(e), *final(e), r),
    {
        let ghost s = e.stack@;
        let ghost n = s.len();
        if e.ip >= self.program.instructions.len() {
            return Err(RuntimeError::InstructionPointerOutOfBounds(e.ip));
        }
        let ins = &self.program.instructions[e.ip];
        match ins {
            Instruction::NoOperation => {
                e.ip = e.ip + 1;
                Ok(Step::Next)
            },
            Instruction::Debug(text) => {
                e.ip = e.ip + 1;
                Ok(Step::Debug(text.clone()))
            },
            Instruction::Print => {
                let v = pop(&mut e.stack)?;
                e.ip = e.ip + 1;
                Ok(Step::Print(v))
            },
            Instruction::Sleep => {
                match pop(&mut e.stack)? {
                    Variant::Integer(ms) => {
                        e.ip = e.ip + 1;
                        Ok(Step::Sleep(ms))
                    },
                    _ => Err(RuntimeError::ExpectedIntegerOnStack),
                }
            },
            Instruction::PushNull => {
                e.stack.push(Variant::Null);
                e.ip = e.ip + 1;
                Ok(Step::Next)
            },
            Instruction::PushInteger(v) => {
                e.stack.push(Variant::Integer(*v));
                e.ip = e.ip + 1;
                Ok(Step::Next)
            },
            Instruction::PushFloat(text) => {
                e.ip = e.ip + 1;
                Ok(Step::ParseFloat(text.clone()))
            },
            Instruction::PushBool(v) => {
                e.stack.push(Variant::Bool(*v));
                e.ip = e.ip + 1;
                Ok(Step::Next)
            },
            Instruction::PushFunctionPointer(v) => {
                e.stack.push(Variant::FunctionPointer(*v));
                e.ip = e.ip + 1;
                Ok(Step::Next)
            },
            Instruction::PushString(v) => {
                e.stack.push(Variant::String(v.clone()));
                e.ip = e.ip + 1;
                proof {
                    assert(e.stack@.take(n as int) =~= s);
                }
                Ok(Step::Next)
            },
            Instruction::PushIdentifier(v) => {
                e.stack.push(Variant::Identifier(v.clone()));
                e.ip = e.ip + 1;
                proof {
                    assert(e.stack@.take(n as int) =~= s);
                }
                Ok(Step::Next)
            },
            Instruction::PushFunctionRef(v) => {
                e.stack.push(Variant::FunctionRef(v.clone()));
                e.ip = e.ip + 1;
                proof {
                    assert(e.stack@.take(n as int) =~= s);
                }
                Ok(Step::Next)
            },
            Instruction::PushStackTrace(t) => {
                if self.options.stack_trace_enabled {
                    let ghost before = e.trace@;
                    e.trace.push(t.clone());
                    proof {
                        assert(e.trace@.take(before.len() as int) =~= before);
                    }
                }
                e.ip = e.ip + 1;
                Ok(Step::Next)
            },
            Instruction::PopStackTrace => {
                if self.options.stack_trace_enabled {
                    e.trace.pop();
                }
                e.ip = e.ip + 1;
                Ok(Step::Next)
            },
            Instruction::JumpForward(d) => {
                match e.ip.checked_add(*d) {
                    Some(target) => {
                        e.ip = target;
                        Ok(Step::Next)
                    },
                    None => Err(RuntimeError::InstructionPointerOutOfBounds(e.ip)),
                }
            },
            Instruction::JumpBackward(d) => {
                if *d > e.ip {
                    return Err(RuntimeError::InstructionPointerOutOfBounds(e.ip));
                }
                e.ip = e.ip - *d;
                Ok(Step::Next)
            },
            Instruction::JumpForwardIfFalse(d) => {
                let v = pop(&mut e.stack)?;
                match v {
                    Variant::Bool(false) => match e.ip.checked_add(*d) {
                        Some(target) => {
                            e.ip = target;
                            Ok(Step::Next)
                        },
                        None => Err(RuntimeError::InstructionPointerOutOfBounds(e.ip)),
                    },
                    _ => {
                        e.ip = e.ip + 1;
                        Ok(Step::Next)
                    },
                }
            },
            Instruction::Not => {
                let v = pop(&mut e.stack)?;
                e.stack.push(not(&v));
                e.ip = e.ip + 1;
                Ok(Step::Next)
            },
            Instruction::Add => self.operator(BinaryOp::Add, e),
            Instruction::Sub => self.operator(BinaryOp::Sub, e),
            Instruction::Multiply => self.operator(BinaryOp::Multiply, e),
            Instruction::Divide => self.operator(BinaryOp::Divide, e),
            Instruction::Pow => self.operator(BinaryOp::Pow, e),
            Instruction::And => self.operator(BinaryOp::And, e),
            Instruction::Or => self.operator(BinaryOp::Or, e),
            Instruction::Equal => self.operator(BinaryOp::Equal, e),
            Instruction::NotEqual => self.operator(BinaryOp::NotEqual, e),
            Instruction::LessThan => self.operator(BinaryOp::LessThan, e),
            Instruction::LessThanOrEqual => self.operator(BinaryOp::LessThanOrEqual, e),
            Instruction::GreaterThan => self.operator(BinaryOp::GreaterThan, e),
            Instruction::GreaterThanOrEqual => self.operator(BinaryOp::GreaterThanOrEqual, e),
            Instruction::MoveToLocalVariable(_) | Instruction::LoadLocalVariable(_) | Instruction::LoadGlobal(_)
            | Instruction::IteratorInit | Instruction::IteratorNext(_) => self.variable(ins, e),
            Instruction::CreateCollectionAsDictionary(_) | Instruction::CreateCollectionAsArray(_)
            | Instruction::GetCollectionItem | Instruction::SetCollectionItem | Instruction::SetArrayItem => {
                self.collection(ins, e)
            },
            Instruction::LoadMember(_) => self.load_member(ins, e),
            Instruction::Call(_) => self.call(ins, e),
            Instruction::Return { .. } => self.return_from(ins, e),
            _ => Err(RuntimeError::InstructionNotImplemented(ins.clone())),
        }
    }
}

} // verus!

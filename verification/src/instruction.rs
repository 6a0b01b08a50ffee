use vstd::prelude::*;

verus! {

/// Where a function was called from, for stack traces.
#[derive(Clone, Debug, PartialEq)]
pub struct StackTrace {
    pub line: usize,
    pub file: String,
    pub function: String,
}

/// An instruction of the virtual machine. `PushFloat` carries the literal
/// text of its number.
#[derive(Clone, Debug, PartialEq)]
pub enum Instruction {
    NoOperation,
    SetVariableBuffer(usize),
    Debug(String),
    // stack
    PushNull,
    PushInteger(i64),
    PushFloat(String),
    PushBool(bool),
    PushString(String),
    PushIdentifier(String),
    PushFunctionRef(String),
    PushFunctionPointer(usize),
    // stack trace
    PushStackTrace(StackTrace),
    PopStackTrace,
    // variables
    MoveToLocalVariable(usize),
    LoadLocalVariable(usize),
    // globals
    LoadGlobal(String),
    LoadClass(String),
    LoadMember(String),
    // objects
    CreateObject,
    // collections
    GetCollectionItem,
    SetCollectionItem,
    SetArrayItem,
    CreateCollectionAsDictionary(usize),
    CreateCollectionAsArray(usize),
    // iteration
    IteratorInit,
    IteratorNext(usize),
    // control flow
    Call(usize),
    JumpForward(usize),
    JumpBackward(usize),
    JumpForwardIfFalse(usize),
    Return { with_value: bool },
    // operators
    Equal,
    NotEqual,
    Add,
    Sub,
    Multiply,
    Divide,
    Pow,
    Not,
    And,
    Or,
    // comparison
    LessThan,
    LessThanOrEqual,
    GreaterThan,
    GreaterThanOrEqual,
    Print,
    Sleep,
    Halt(String),
}

} // verus!

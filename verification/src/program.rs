use vstd::prelude::*;

use crate::instruction::Instruction;
use crate::table::Table;
use crate::variant::Variant;

verus! {

/// A compiled script: its instructions, and the globals (functions, classes,
/// modules, enums) by name.
#[derive(Debug, PartialEq)]
pub struct Program {
    pub instructions: Vec<Instruction>,
    pub globals: Table<Variant>,
}

} // verus!

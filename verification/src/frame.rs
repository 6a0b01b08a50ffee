use vstd::prelude::*;

use crate::error::RuntimeError;
use crate::variant::Variant;

verus! {

/// The activation record of a running function: where to go back to, how
/// high the value stack stood when it was called, and its local variables.
#[derive(Debug, PartialEq)]
pub struct Frame {
    pub return_address: usize,
    pub stack_pointer: usize,
    pub variables: Vec<Variant>,
}

impl Default for Frame {
    fn default() -> (r: Self)
        ensures
            r.return_address == 0,
            r.stack_pointer == 0,
            r.variables@.len() == 0,
    {
        Frame { return_address: 0, stack_pointer: 0, variables: Vec::new() }
    }
}

/// Frame `f1` is `f0` with variable `i` set to `v`, the variables grown with
/// `Null` up to it.
pub open spec fn stored(f0: Frame, f1: Frame, i: usize, v: Variant) -> bool {
    &&& f1.return_address == f0.return_address
    &&& f1.stack_pointer == f0.stack_pointer
    &&& f1.variables@.len() == if i < f0.variables@.len() {
        f0.variables@.len()
    } else {
        i as nat + 1
    }
    &&& f1.variables@[i as int] == v
    &&& forall|j: int| 0 <= j < f0.variables@.len() && j != i ==> #[trigger] f1.variables@[j] == f0.variables@[j]
    &&& forall|j: int| f0.variables@.len() <= j < i ==> #[trigger] f1.variables@[j] == Variant::Null
}

/// What reading variable `i` of `f` gives.
pub open spec fn variable_read(f: Frame, i: usize) -> Result<Variant, RuntimeError> {
    if i < f.variables@.len() {
        Ok(f.variables@[i as int])
    } else {
        Err(RuntimeError::InvalidVariableIndex(i))
    }
}

impl Frame {
    /// Stores `value` in variable `index`, first growing the variables with
    /// `Null` up to that index.
    pub fn set_variable(&mut self, index: usize, value: Variant) -> (r: Result<(), RuntimeError>)
        ensures
            r is Ok,
            stored(*old(self), *final(self), index, value),
    {
        let ghost before = self.variables@;
        let ghost ra = self.return_address;
        let ghost sp = self.stack_pointer;
        while self.variables.len() <= index
            invariant
                self.return_address == ra,
                self.stack_pointer == sp,
                before.len() <= self.variables@.len(),
                before.len() <= index ==> self.variables@.len() <= index + 1,
                before.len() > index ==> self.variables@ == before,
                forall|j: int| 0 <= j < before.len() ==> #[trigger] self.variables@[j] == before[j],
                forall|j: int| before.len() <= j < self.variables@.len() ==> #[trigger] self.variables@[j] == Variant::Null,
            decreases index + 1 - self.variables@.len(),
        {
            self.variables.push(Variant::Null);
        }
        self.variables.set(index, value);
        Ok(())
    }

    /// The value of variable `index`; an error when there is no such variable.
    pub fn get_variable(&self, index: usize) -> (r: Result<&Variant, RuntimeError>)
        ensures
            match r {
                Ok(v) => variable_read(*self, index) == Ok::<Variant, RuntimeError>(*v),
                Err(e) => variable_read(*self, index) == Err::<Variant, RuntimeError>(e),
            },
    {
        if index >= self.variables.len() {
            return Err(RuntimeError::InvalidVariableIndex(index));
        }
        Ok(&self.variables[index])
    }
}

} // verus!

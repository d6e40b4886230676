use vstd::prelude::*;

verus! {

/// An element of the VM's finite field, carried in its canonical integer
/// representation. This subsystem moves field elements between the advice
/// channels and the executing processor without assuming any internal
/// structure beyond that representation; field arithmetic happens elsewhere.
#[derive(Clone, Copy, Debug, PartialEq, Eq, Structural)]
pub struct Felt {
    pub value: u64,
}

impl Felt {
    /// Wraps a canonical integer as a field element.
    pub fn new(value: u64) -> (r: Felt)
        ensures
            r.value == value,
    {
        Felt { value }
    }

    /// Returns the canonical integer representation of this element.
    pub fn as_int(&self) -> (r: u64)
        ensures
            r == self.value,
    {
        self.value
    }
}

} // verus!

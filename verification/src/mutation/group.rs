//! Mutation of struct values.
use crate::value::Value;
use vstd::prelude::*;

verus! {

/// Structs are not mutated as a whole; their fields are.
pub fn mutate_struct(val: &mut Value) -> (mutated: bool)
    ensures
        !mutated,
        *final(val) == *old(val),
{
    false
}

} // verus!

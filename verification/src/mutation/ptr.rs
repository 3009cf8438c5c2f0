//! Mutation of pointer values.
use crate::mutation::call::{contains_out_res, has_res_not};
use crate::rng::rand_ratio;
use crate::ty::Dir;
use crate::value::{special_addr, PtrValue, Value, ValueKindInner};
use rand::rngs::SmallRng;
use vstd::prelude::*;

verus! {

/// With probability 1/1000 a pointer becomes the null special pointer,
/// unless its pointee holds a resource other than an input (which would
/// then be lost). Tells whether it changed.
pub fn mutate_ptr(rng: &mut SmallRng, val: &mut Value) -> (mutated: bool)
    ensures
        !mutated ==> *final(val) == *old(val),
        mutated ==> !has_res_not(*old(val), Dir::In) && *final(val) == (Value {
            comm: old(val).comm,
            inner: ValueKindInner::PtrValue(PtrValue { comm: old(val).comm, addr: special_addr(0), pointee: None }),
        }),
        has_res_not(*old(val), Dir::In) ==> !mutated,
{
    if contains_out_res(val) {
        return false;
    }
    if rand_ratio(rng, 1, 1000) {
        let nv = Value::from_ptr(PtrValue::new_special(val.comm.ty_id, val.comm.dir, 0));
        *val = nv;
        return true;
    }
    false
}

} // verus!

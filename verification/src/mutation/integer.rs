//! Mutation of integer-like values.
use crate::gen::integer::{gen_flags_bitmask, gen_flags_non_bitmask, gen_int, gen_proc, int_generated, int_value};
use crate::rng::{rand_bool, rand_in_range, rand_ratio};
use crate::size::{lookup_ty, ty_with_id};
use crate::target::{has_ty, Target};
use crate::ty::integer::{bit_size_fits, spec_bit_size};
use crate::ty::Type;
use crate::value::{IntegerValue, Value, ValueKindInner};
use rand::rngs::SmallRng;
use vstd::prelude::*;

verus! {

/// `old` plus or minus 1 to 4, or with one of its low `bit_sz` bits
/// flipped (all wrapping).
pub open spec fn int_step(old: u64, bit_sz: u64, r: u64) -> bool {
    ||| exists|d: u64| 1 <= d <= 4 && r == #[trigger] old.wrapping_add(d)
    ||| exists|d: u64| 1 <= d <= 4 && r == #[trigger] old.wrapping_sub(d)
    ||| exists|b: u64| b < bit_sz && r == old ^ #[trigger] (1u64 << b)
}

/// Moves `old` a little: adds or subtracts 1 to 4, or flips one of its low
/// `bit_sz` bits.
pub fn do_mutate_int(rng: &mut SmallRng, old: u64, bit_sz: u64) -> (r: u64)
    requires
        1 <= bit_sz <= 64,
    ensures
        int_step(old, bit_sz, r),
{
    if rand_ratio(rng, 1, 3) {
        let d = rand_in_range(rng, 1, 4);
        let r = old.wrapping_add(d);
        assert(1 <= d <= 4 && r == old.wrapping_add(d));
        r
    } else if rand_ratio(rng, 1, 2) {
        let d = rand_in_range(rng, 1, 4);
        let r = old.wrapping_sub(d);
        assert(1 <= d <= 4 && r == old.wrapping_sub(d));
        r
    } else {
        let b = rand_in_range(rng, 0, bit_sz - 1);
        let r = old ^ (1u64 << b);
        assert(b < bit_sz && r == old ^ (1u64 << b));
        r
    }
}

/// The range an aligned integer moves in: its own, with a range of all
/// values narrowed to the type's width, or all values.
pub open spec fn aligned_bounds(range: Option<(u64, u64)>, bit_sz: u64) -> (u64, u64) {
    let (start, end) = match range {
        Some(r) => r,
        None => (0, u64::MAX),
    };
    if start == 0 && end == u64::MAX {
        (start, (1u64 << (((bit_sz as u32) % 64) as u64)).wrapping_sub(1))
    } else {
        (start, end)
    }
}

/// `r` is `old` moved as an aligned integer (see `do_mutate_aligned_int`).
pub open spec fn aligned_step(old: u64, range: Option<(u64, u64)>, align: u64, bit_sz: u64, r: u64) -> bool {
    let (start, end) = aligned_bounds(range, bit_sz);
    let index = old.wrapping_sub(start) / align;
    let miss = old.wrapping_sub(start) % align;
    let last = end.wrapping_sub(start) / align;
    exists|ni: u64|
        int_step(index, bit_sz, ni) && r == #[trigger] start.wrapping_add((ni % ((last + 1) as u64)).wrapping_mul(align)).wrapping_add(miss)
}

/// `v` cut to its low `bit_sz` bits.
pub open spec fn cut_to_bits(v: u64, bit_sz: u64) -> u64 {
    if bit_sz < 64 {
        v & (((1u64 << bit_sz) - 1) as u64)
    } else {
        v
    }
}

/// Moves an aligned integer: its index in the range (counted in aligned
/// steps) is moved like `do_mutate_int`, taken modulo the number of steps,
/// and the offset from the alignment is kept.
pub fn do_mutate_aligned_int(rng: &mut SmallRng, old: u64, range: Option<(u64, u64)>, align: u64, bit_sz: u64) -> (r: u64)
    requires
        align != 0,
        1 <= bit_sz <= 64,
        aligned_bounds(range, bit_sz).1.wrapping_sub(aligned_bounds(range, bit_sz).0) / align < u64::MAX,
    ensures
        aligned_step(old, range, align, bit_sz, r),
{
    let (start, e) = match range {
        Some(r) => r,
        None => (0, u64::MAX),
    };
    let mut end = e;
    if start == 0 && end == u64::MAX {
        let sh = (bit_sz as u32) % 64;
        end = (1u64 << (sh as u64)).wrapping_sub(1);
    }
    let index = old.wrapping_sub(start) / align;
    let miss = old.wrapping_sub(start) % align;
    let ni = do_mutate_int(rng, index, bit_sz);
    let last = end.wrapping_sub(start) / align;
    assert((start, end) == aligned_bounds(range, bit_sz));
    let index = ni % (last + 1);
    let r = start.wrapping_add(index.wrapping_mul(align)).wrapping_add(miss);
    assert(int_step(old.wrapping_sub(start) / align, bit_sz, ni)
        && r == start.wrapping_add((ni % ((last + 1) as u64)).wrapping_mul(align)).wrapping_add(miss));
    r
}

/// The plain integer type of a value, its bit size usable.
pub open spec fn int_ty_ok(ty: Type) -> bool {
    &&& ty is Int
    &&& bit_size_fits(ty->Int_0.int_fmt, ty->Int_0.comm.size)
    &&& 1 <= spec_bit_size(ty->Int_0.int_fmt, ty->Int_0.comm.size) <= 64
    &&& ty->Int_0.range matches Some((s, e)) ==> (ty->Int_0.align == 0 ==> s <= e) && (ty->Int_0.align != 0 && s == 0
        && e == u64::MAX ==> spec_bit_size(ty->Int_0.int_fmt, ty->Int_0.comm.size) < 64)
    &&& ty->Int_0.align != 0 ==> {
        let b = aligned_bounds(ty->Int_0.range, spec_bit_size(ty->Int_0.int_fmt, ty->Int_0.comm.size));
        b.1.wrapping_sub(b.0) / ty->Int_0.align < u64::MAX
    }
}

/// Mutates a plain integer: with probability 1/2 a newly generated value
/// (see `gen_int`), else the value moved a little (see `do_mutate_int` and
/// `do_mutate_aligned_int`) and cut to the type's width. Tells whether the
/// number changed.
pub fn mutate_int(target: &Target, rng: &mut SmallRng, val: &mut Value) -> (mutated: bool)
    requires
        target.wf(),
        has_ty(target.tys@, old(val).comm.ty_id),
        int_ty_ok(ty_with_id(target.tys@, old(val).comm.ty_id)),
        old(val).inner is IntegerValue,
        old(val).inner->IntegerValue_0.comm == old(val).comm,
    ensures
        final(val).comm == old(val).comm,
        final(val).inner is IntegerValue,
        final(val).inner->IntegerValue_0.comm == old(val).comm,
        mutated == (final(val).inner->IntegerValue_0.val != old(val).inner->IntegerValue_0.val),
        ({
            let t = ty_with_id(target.tys@, old(val).comm.ty_id)->Int_0;
            let bit_sz = spec_bit_size(t.int_fmt, t.comm.size);
            let ov = old(val).inner->IntegerValue_0.val;
            let nv = final(val).inner->IntegerValue_0.val;
            ||| int_generated(t, nv)
            ||| exists|st: u64|
                (if t.align == 0 {
                    int_step(ov, bit_sz, st)
                } else {
                    aligned_step(ov, t.range, t.align, bit_sz, st)
                }) && nv == #[trigger] cut_to_bits(st, bit_sz)
        }),
{
    let ty = lookup_ty(target, val.comm.ty_id);
    let old_val = match &val.inner {
        ValueKindInner::IntegerValue(i) => i.val,
        _ => 0,
    };
    if rand_bool(rng) {
        let nv = gen_int(rng, ty, val.comm.dir);
        let new_val = match &nv.inner {
            ValueKindInner::IntegerValue(i) => i.val,
            _ => 0,
        };
        *val = nv;
        return new_val != old_val;
    }
    let t = ty.checked_as_int();
    let bit_sz = t.bit_size();
    let stepped = if t.align == 0 {
        do_mutate_int(rng, old_val, bit_sz)
    } else {
        do_mutate_aligned_int(rng, old_val, t.range, t.align, bit_sz)
    };
    let mut new_val = stepped;
    if bit_sz < 64 {
        assert(1u64 << bit_sz >= 1) by (bit_vector)
            requires
                bit_sz < 64,
        ;
        new_val = new_val & ((1u64 << bit_sz) - 1);
    }
    let c = val.comm;
    *val = Value::from_int(IntegerValue { comm: c, val: new_val });
    proof {
        assert(new_val == cut_to_bits(stepped, bit_sz));
    }
    old_val != new_val
}

/// Constants are not mutated.
pub fn mutate_const(val: &mut Value) -> (mutated: bool)
    ensures
        !mutated,
        *final(val) == *old(val),
{
    false
}

/// Mutates flags: draws flag values based on the current one (see
/// `gen_flags_bitmask` and `gen_flags_non_bitmask`) until one differs, at
/// most 128 times, and keeps the last. Tells whether the number changed.
pub fn mutate_flags(target: &Target, rng: &mut SmallRng, val: &mut Value) -> (mutated: bool)
    requires
        target.wf(),
        has_ty(target.tys@, old(val).comm.ty_id),
        ty_with_id(target.tys@, old(val).comm.ty_id) matches Type::Flags(t) && (!t.bit_mask ==> t.vals@.len() > 0),
        old(val).inner is IntegerValue,
    ensures
        final(val).comm == old(val).comm,
        final(val).inner is IntegerValue,
        final(val).inner->IntegerValue_0.comm == old(val).inner->IntegerValue_0.comm,
        mutated == (final(val).inner->IntegerValue_0.val != old(val).inner->IntegerValue_0.val),
{
    let ty = lookup_ty(target, val.comm.ty_id);
    let t = ty.checked_as_flags();
    match &mut val.inner {
        ValueKindInner::IntegerValue(i) => {
            let old_val = i.val;
            let mut new_val = old_val;
            let mut mutated = false;
            let mut tries: u32 = 0;
            while tries < 128 && !mutated
                invariant
                    tries <= 128,
                    mutated == (new_val != old_val),
                    !t.bit_mask ==> t.vals@.len() > 0,
                decreases 128 - tries,
            {
                new_val = if t.bit_mask {
                    gen_flags_bitmask(rng, t.vals.as_slice(), old_val)
                } else {
                    gen_flags_non_bitmask(rng, t.vals.as_slice(), old_val)
                };
                mutated = new_val != old_val;
                tries = tries + 1;
            }
            i.val = new_val;
            mutated
        },
        _ => false,
    }
}

/// Mutates a per-process value: a newly generated one (see `gen_proc`).
/// Tells whether the number changed.
pub fn mutate_proc(target: &Target, rng: &mut SmallRng, val: &mut Value) -> (mutated: bool)
    requires
        target.wf(),
        has_ty(target.tys@, old(val).comm.ty_id),
        ty_with_id(target.tys@, old(val).comm.ty_id) matches Type::Proc(t) && t.values_per_proc > 0,
        old(val).inner is IntegerValue,
    ensures
        exists|v: u64|
            v < ty_with_id(target.tys@, old(val).comm.ty_id)->Proc_0.values_per_proc && *final(val) == int_value(
                ty_with_id(target.tys@, old(val).comm.ty_id),
                old(val).comm.dir,
                v,
            ),
        mutated == (final(val).inner->IntegerValue_0.val != old(val).inner->IntegerValue_0.val),
{
    let ty = lookup_ty(target, val.comm.ty_id);
    let old_val = match &val.inner {
        ValueKindInner::IntegerValue(i) => i.val,
        _ => 0,
    };
    let nv = gen_proc(rng, ty, val.comm.dir);
    let new_val = match &nv.inner {
        ValueKindInner::IntegerValue(i) => i.val,
        _ => 0,
    };
    *val = nv;
    new_val != old_val
}

} // verus!

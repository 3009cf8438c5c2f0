//! Mutation of one value of a call, by the kind of its type: resources are
//! generated anew, unions switch to another field, arrays grow, shrink or
//! are shuffled, integers, flags and per-process values are changed, and
//! pointers may become null; `mutate_value` picks the mutator of the kind.
use crate::context::Context;
use crate::gen::group::{ctx_kept, gen_ok, gen_ty_value, ids_needed, shaped};
use crate::gen::res::{gen_res, res_gen_ok};
use crate::mutation::call::{contains_out_res, has_res_not};
use crate::mutation::group::mutate_struct;
use crate::mutation::integer::{int_ty_ok, mutate_const, mutate_flags, mutate_int, mutate_proc};
use crate::mutation::ptr::mutate_ptr;
use crate::rng::{rand_bool, rand_in_range, rand_index, rand_ratio, rand_shuffle};
use crate::size::{lookup_ty, ty_with_id};
use crate::target::{field_dir, has_ty, Target};
use crate::ty::group::ArrayType;
use crate::ty::{Dir, Type};
use crate::value::{Value, ValueKindInner};
use rand::rngs::SmallRng;
use vstd::prelude::*;

verus! {

/// The last length of an array type's range (0 without one).
pub open spec fn range_end(t: ArrayType) -> u64 {
    match t.range {
        Some((_, e)) => e,
        None => 0,
    }
}

/// A new array length, given the old one: within a range of more than one
/// length, another length of it; within a range of one length, that one;
/// without a range, a longer length or one of 0 to 10.
pub open spec fn new_len_ok(t: ArrayType, old_len: int, r: int) -> bool {
    match t.range {
        Some((s, e)) => if s == e {
            r == old_len
        } else {
            s <= r <= e && r != old_len
        },
        None => r > old_len || 0 <= r <= 10,
    }
}

/// A new length for an array of type `t` holding `old_len` elements (see
/// `new_len_ok`): another length of the range drawn uniformly; without a
/// range, with probability 1/2 the old length increased once and then
/// again for each of a run of random `true` draws, else a length of 0 to 10.
pub fn mutate_array_len(rng: &mut SmallRng, t: &ArrayType, old_len: usize) -> (r: usize)
    requires
        t.range matches Some((s, e)) ==> s <= e <= usize::MAX,
        old_len < usize::MAX,
    ensures
        new_len_ok(*t, old_len as int, r as int),
{
    match t.range {
        Some((s, e)) => {
            if s == e {
                old_len
            } else if s <= old_len as u64 && old_len as u64 <= e {
                let x = rand_in_range(rng, s, e - 1);
                if x >= old_len as u64 {
                    (x + 1) as usize
                } else {
                    x as usize
                }
            } else {
                rand_in_range(rng, s, e) as usize
            }
        },
        None => {
            if rand_bool(rng) {
                let mut n = old_len + 1;
                while n < usize::MAX && rand_bool(rng)
                    invariant
                        old_len < n,
                    decreases usize::MAX - n,
                {
                    n = n + 1;
                }
                n
            } else {
                rand_in_range(rng, 0, 10) as usize
            }
        },
    }
}

/// The array value can be mutated: its type is an array type of the
/// target whose range fits in memory and whose element type can be
/// generated in the value's direction; the resource ids new elements may
/// take are available.
pub open spec fn array_mut_ok(ctx: Context, target: Target, v: Value) -> bool {
    let ty = ty_with_id(target.tys@, v.comm.ty_id);
    &&& ty matches Type::Array(t) && (t.range matches Some((s, e)) ==> s <= e <= usize::MAX) && gen_ok(
        target,
        *t.elem,
        v.comm.dir,
    ) && (ids_needed(*t.elem) == 0 || (t.range matches Some((_, e)) && ctx.spec_next_res_id() + e * ids_needed(*t.elem)
        <= usize::MAX))
    &&& v.inner matches ValueKindInner::GroupValue(g) && g.inner@.len() < usize::MAX
}

/// Mutates an array value: a new length (see `mutate_array_len`); a longer
/// array gets new elements at its end; a shorter one is cut, unless an
/// element holds a resource that is not only an input, which keeps it, but
/// for a 1-in-20 chance; at the same length the elements are shuffled.
/// It is mutated when its length changed or it was shuffled.
pub fn mutate_array(ctx: &mut Context, target: &Target, rng: &mut SmallRng, val: &mut Value) -> (mutated: bool)
    requires
        old(ctx).wf(),
        target.wf(),
        has_ty(target.tys@, old(val).comm.ty_id),
        array_mut_ok(*old(ctx), *target, *old(val)),
    ensures
        final(val).comm == old(val).comm,
        ctx_kept(*old(ctx), *final(ctx), (if ids_needed(*ty_with_id(target.tys@, old(val).comm.ty_id)->Array_0.elem) == 0 {
            0
        } else {
            range_end(ty_with_id(target.tys@, old(val).comm.ty_id)->Array_0) * ids_needed(
                *ty_with_id(target.tys@, old(val).comm.ty_id)->Array_0.elem,
            )
        }) as nat),
        !mutated ==> *final(val) == *old(val),
        final(val).inner matches ValueKindInner::GroupValue(ng) && old(val).inner matches ValueKindInner::GroupValue(og) && {
            let t = ty_with_id(target.tys@, old(val).comm.ty_id)->Array_0;
            let ol = og.inner@.len();
            let nl = ng.inner@.len();
            &&& ng.comm == og.comm
            &&& nl > ol ==> ng.inner@.subrange(0, ol as int) == og.inner@ && forall|i: int|
                ol <= i < nl ==> shaped(*t.elem, old(val).comm.dir, #[trigger] ng.inner@[i])
            &&& nl < ol ==> ng.inner@ == og.inner@.subrange(0, nl as int)
            &&& nl == ol ==> ng.inner@.to_multiset() == og.inner@.to_multiset()
            &&& nl != ol ==> mutated && new_len_ok(t, ol as int, nl as int)
        },
{
    let ty = lookup_ty(target, val.comm.ty_id);
    let t = match ty {
        Type::Array(t) => t,
        _ => {
            proof {
                assert(false);
            }
            return false;
        },
    };
    let ghost o = *ctx;
    let ghost ov = *val;
    let ghost ide = ids_needed(*t.elem);
    let dir = val.comm.dir;
    let g = match &mut val.inner {
        ValueKindInner::GroupValue(g) => g,
        _ => {
            proof {
                assert(false);
            }
            return false;
        },
    };
    let ghost og = g.inner@;
    let ghost ogc = g.comm;
    let old_len = g.inner.len();
    let new_len = mutate_array_len(rng, t, old_len);
    if new_len > old_len {
        let ghost bound: nat = if ide == 0 {
            0
        } else {
            (range_end(*t) * ide) as nat
        };
        let mut i: usize = old_len;
        while i < new_len
            invariant
                target.wf(),
                gen_ok(*target, *t.elem, dir),
                ide == ids_needed(*t.elem),
                old_len <= i <= new_len,
                new_len_ok(*t, old_len as int, new_len as int),
                ide != 0 ==> (t.range is Some && o.spec_next_res_id() + range_end(*t) * ide <= usize::MAX && new_len <= range_end(*t)),
                bound == (if ide == 0 { 0 } else { (range_end(*t) * ide) as nat }),
                g.inner@.len() == i,
                g.comm == ogc,
                g.inner@.subrange(0, old_len as int) == og,
                forall|j: int| old_len <= j < i ==> shaped(*t.elem, dir, #[trigger] g.inner@[j]),
                ctx_kept(o, *ctx, if ide == 0 { 0 } else { ((i - old_len) * ide) as nat }),
            decreases new_len - i,
        {
            proof {
                ctx.lemma_next_bounded();
                if ide != 0 {
                    let e = range_end(*t);
                    assert((i + 1 - old_len) * ide <= e * ide) by (nonlinear_arith)
                        requires
                            i + 1 - old_len <= e,;
                    assert((i + 1 - old_len) * ide == (i - old_len) * ide + ide) by (nonlinear_arith);
                }
            }
            let x = gen_ty_value(ctx, target, rng, &t.elem, dir);
            g.inner.push(x);
            proof {
                assert(g.inner@.subrange(0, old_len as int) =~= og);
            }
            i = i + 1;
        }
        proof {
            if ide != 0 {
                let e = range_end(*t);
                assert((new_len - old_len) * ide <= e * ide) by (nonlinear_arith)
                    requires
                        new_len - old_len <= e,;
            }
        }
        assert(val.inner is GroupValue);
        true
    } else if new_len < old_len {
        let mut keep = false;
        let mut i: usize = 0;
        while i < g.inner.len()
            invariant
                i <= g.inner@.len(),
                g.inner@ == og,
                g.comm == ogc,
                keep == exists|j: int| 0 <= j < i && has_res_not(#[trigger] og[j], Dir::In),
            decreases g.inner.len() - i,
        {
            if contains_out_res(&g.inner[i]) {
                keep = true;
            }
            i = i + 1;
        }
        if !keep || rand_ratio(rng, 1, 20) {
            g.inner.truncate(new_len);
            proof {
                assert(g.inner@ =~= og.subrange(0, new_len as int));
            }
            assert(val.inner is GroupValue);
            true
        } else {
            assert(val.inner is GroupValue);
            false
        }
    } else {
        rand_shuffle(rng, g.inner.as_mut_slice());
        assert(val.inner is GroupValue);
        true
    }
}

/// Mutates a union value: with more than one field, and unless its member
/// holds a resource that is not only an input (kept but for a 1-in-20
/// chance), another field is drawn uniformly and a member generated for
/// it, in the field's own direction or else the old member's.
pub fn mutate_union(ctx: &mut Context, target: &Target, rng: &mut SmallRng, val: &mut Value) -> (mutated: bool)
    requires
        old(ctx).wf(),
        target.wf(),
        has_ty(target.tys@, old(val).comm.ty_id),
        ty_with_id(target.tys@, old(val).comm.ty_id) matches Type::Union(t) && forall|i: int|
            0 <= i < t.fields@.len() ==> gen_ok(*target, *(#[trigger] t.fields@[i]).ty, field_dir(t.fields@[i], old(val).inner->UnionValue_0.option.comm.dir))
            && old(ctx).spec_next_res_id() + ids_needed(*t.fields@[i].ty) <= usize::MAX,
        old(val).inner is UnionValue,
    ensures
        final(val).comm == old(val).comm,
        !mutated ==> *final(val) == *old(val),
        !mutated ==> *final(ctx) == *old(ctx),
        mutated ==> {
            let t = ty_with_id(target.tys@, old(val).comm.ty_id)->Union_0;
            let ou = old(val).inner->UnionValue_0;
            &&& final(val).inner matches ValueKindInner::UnionValue(nu) && nu.comm == ou.comm && nu.index != ou.index
                && nu.index < t.fields@.len() && shaped(
                *t.fields@[nu.index as int].ty,
                field_dir(t.fields@[nu.index as int], ou.option.comm.dir),
                *nu.option,
            ) && ctx_kept(*old(ctx), *final(ctx), ids_needed(*t.fields@[nu.index as int].ty))
            &&& t.fields@.len() > 1
        },
        ty_with_id(target.tys@, old(val).comm.ty_id)->Union_0.fields@.len() <= 1 ==> !mutated,
{
    let ty = lookup_ty(target, val.comm.ty_id);
    let t = match ty {
        Type::Union(t) => t,
        _ => {
            proof {
                assert(false);
            }
            return false;
        },
    };
    if t.fields.len() <= 1 {
        return false;
    }
    let u = match &mut val.inner {
        ValueKindInner::UnionValue(u) => u,
        _ => {
            proof {
                assert(false);
            }
            return false;
        },
    };
    if contains_out_res(&u.option) && rand_ratio(rng, 19, 20) {
        return false;
    }
    let old_index = u.index as usize;
    let x = rand_index(rng, t.fields.len() - 1);
    let new_index = if x >= old_index {
        x + 1
    } else {
        x
    };
    let f = &t.fields[new_index];
    let fdir = match f.dir {
        Some(d) => d,
        None => u.option.comm.dir,
    };
    let nv = gen_ty_value(ctx, target, rng, &f.ty, fdir);
    u.option = Box::new(nv);
    u.index = new_index as u64;
    true
}

/// Mutates a resource value: an output is kept; an input is generated anew
/// (see `gen_res`), and it is mutated when the new value differs.
pub fn mutate_res(ctx: &mut Context, target: &Target, rng: &mut SmallRng, val: &mut Value) -> (mutated: bool)
    requires
        old(ctx).wf(),
        target.wf(),
        has_ty(target.tys@, old(val).comm.ty_id),
        ty_with_id(target.tys@, old(val).comm.ty_id) matches Type::Res(t) && res_gen_ok(*target, t, old(val).comm.dir),
        old(val).inner matches ValueKindInner::ResValue(r) && r.comm == old(val).comm,
    ensures
        final(val).comm == old(val).comm,
        mutated == (*final(val) != *old(val)),
        old(val).comm.dir == Dir::Out ==> *final(val) == *old(val) && *final(ctx) == *old(ctx),
        ctx_kept(*old(ctx), *final(ctx), 0),
        old(val).comm.dir != Dir::Out ==> final(val).inner is ResValue,
{
    if val.comm.dir == Dir::Out {
        return false;
    }
    let ty = lookup_ty(target, val.comm.ty_id);
    let nv = gen_res(ctx, target, rng, ty, val.comm.dir);
    let mutated = match (&nv.inner, &val.inner) {
        (ValueKindInner::ResValue(a), ValueKindInner::ResValue(b)) => *a != *b,
        _ => true,
    };
    proof {
        assert(nv.comm == val.comm);
        if !mutated {
            assert(nv == *val);
        }
    }
    *val = nv;
    mutated
}

/// What mutating a value keeps of the context: it stays well formed, its
/// counter does not move back, and only the resources change.
pub open spec fn ctx_framed(o: Context, f: Context) -> bool {
    &&& f.wf()
    &&& o.spec_next_res_id() <= f.spec_next_res_id()
    &&& f.spec_calls() == o.spec_calls()
    &&& f.spec_mem() == o.spec_mem()
    &&& f.spec_vma() == o.spec_vma()
    &&& f.spec_strs() == o.spec_strs()
    &&& f.spec_filenames() == o.spec_filenames()
}

/// A value that `mutate_value` can mutate: its type is a type of the
/// target, and the value, of that type's kind, meets what the mutator of
/// the kind needs. Lengths and checksums are left out (their generator
/// takes only plain integer types), as are vma and buffer values.
pub open spec fn value_mut_ok(ctx: Context, target: Target, v: Value) -> bool {
    let ty = ty_with_id(target.tys@, v.comm.ty_id);
    &&& has_ty(target.tys@, v.comm.ty_id)
    &&& match ty {
        Type::Res(t) => res_gen_ok(target, t, v.comm.dir) && (v.inner matches ValueKindInner::ResValue(r) && r.comm
            == v.comm),
        Type::Const(_) => true,
        Type::Int(_) => int_ty_ok(ty) && (v.inner matches ValueKindInner::IntegerValue(i) && i.comm == v.comm),
        Type::Flags(t) => (!t.bit_mask ==> t.vals@.len() > 0) && v.inner is IntegerValue,
        Type::Proc(t) => t.values_per_proc > 0 && (v.inner matches ValueKindInner::IntegerValue(i) && i.comm == v.comm),
        Type::Array(_) => array_mut_ok(ctx, target, v),
        Type::Ptr(_) => true,
        Type::Struct(_) => true,
        Type::Union(t) => v.inner is UnionValue && forall|i: int|
            0 <= i < t.fields@.len() ==> gen_ok(
                target,
                *(#[trigger] t.fields@[i]).ty,
                field_dir(t.fields@[i], v.inner->UnionValue_0.option.comm.dir),
            ) && ctx.spec_next_res_id() + ids_needed(*t.fields@[i].ty) <= usize::MAX,
        _ => false,
    }
}

/// Mutates a value by the mutator of its type's kind: `mutate_res`,
/// `mutate_const`, `mutate_int`, `mutate_flags`, `mutate_proc`,
/// `mutate_array`, `mutate_ptr`, `mutate_struct` or `mutate_union`. The
/// value keeps its type and direction; when it is not mutated it is left
/// as it was.
pub fn mutate_value(ctx: &mut Context, target: &Target, rng: &mut SmallRng, val: &mut Value) -> (mutated: bool)
    requires
        old(ctx).wf(),
        target.wf(),
        value_mut_ok(*old(ctx), *target, *old(val)),
    ensures
        final(val).comm == old(val).comm,
        !mutated ==> *final(val) == *old(val),
        ctx_framed(*old(ctx), *final(ctx)),
        ({
            let ty = ty_with_id(target.tys@, old(val).comm.ty_id);
            &&& (ty is Const || ty is Struct) ==> !mutated
            &&& (ty is Int || ty is Flags || ty is Proc) ==> final(val).inner is IntegerValue && mutated == (final(val).inner->IntegerValue_0.val
                != old(val).inner->IntegerValue_0.val)
            &&& ty is Res ==> mutated == (*final(val) != *old(val))
            &&& ty is Union && mutated ==> final(val).inner is UnionValue && final(val).inner->UnionValue_0.index
                != old(val).inner->UnionValue_0.index
            &&& ty is Array ==> final(val).inner is GroupValue
            &&& ty is Ptr && mutated ==> (final(val).inner matches ValueKindInner::PtrValue(p) && p.addr == 0
                && p.pointee is None)
        }),
{
    let ty = lookup_ty(target, val.comm.ty_id);
    match ty {
        Type::Res(_) => mutate_res(ctx, target, rng, val),
        Type::Const(_) => mutate_const(val),
        Type::Int(_) => {
            let m = mutate_int(target, rng, val);
            proof {
                if !m {
                    assert(*val == *old(val));
                }
            }
            m
        },
        Type::Flags(_) => mutate_flags(target, rng, val),
        Type::Proc(_) => {
            let m = mutate_proc(target, rng, val);
            proof {
                if !m {
                    assert(*val == *old(val));
                }
            }
            m
        },
        Type::Array(_) => mutate_array(ctx, target, rng, val),
        Type::Ptr(_) => mutate_ptr(rng, val),
        Type::Struct(_) => mutate_struct(val),
        Type::Union(_) => mutate_union(ctx, target, rng, val),
        _ => {
            proof {
                assert(false);
            }
            false
        },
    }
}

} // verus!

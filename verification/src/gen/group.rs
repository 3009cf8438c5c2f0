//! Generation of the value of a type: arrays, structs and unions member by
//! member, integers and resources by their own generators.
use crate::context::Context;
use crate::gen::integer::{gen_const, gen_csum, gen_flags, gen_int, gen_len, gen_proc, int_value};
use crate::gen::res::{gen_res, res_gen_ok, special_res_val};
use crate::rng::{rand_in_range, rand_index, rand_ratio};
use crate::target::{field_dir, fields_of, Target};
use crate::ty::defaults::{lemma_array_elem_decreases, lemma_field_decreases};
use crate::ty::group::ArrayType;
use crate::ty::integer::{bit_size_fits, spec_bit_size};
use crate::ty::{Dir, Type};
use crate::value::{GroupValue, ResValue, UnionValue, Value, ValueCommon, ValueKindInner};
use rand::rngs::SmallRng;
use vstd::prelude::*;

verus! {

/// The most elements an array of type `t` is generated with.
pub open spec fn max_len(t: ArrayType) -> nat {
    match t.range {
        Some((_, e)) => e as nat,
        None => 10,
    }
}

/// The type can be generated in direction `dir` with the generators of this
/// library: an optional type has a default value; resources can be
/// generated (see `res_gen_ok`); inputs of integers, flags and per-process
/// values meet their generators' needs; a vma only as an output; arrays,
/// structs and unions when their members can, a union having a field.
/// Buffers and pointers are left out: their generators are not part of
/// this library.
pub open spec fn gen_ok(target: Target, ty: Type, dir: Dir) -> bool
    decreases ty,
{
    &&& (ty.spec_comm().optional ==> ty.default_ok())
    &&& match ty {
        Type::Res(t) => res_gen_ok(target, t, dir),
        Type::Int(t) => dir == Dir::Out || {
            &&& bit_size_fits(t.int_fmt, t.comm.size)
            &&& 1 <= spec_bit_size(t.int_fmt, t.comm.size) <= 64
            &&& (t.range matches Some((s, e)) ==> (t.align == 0 ==> s <= e) && (t.align != 0 && s == 0 && e == u64::MAX
                ==> spec_bit_size(t.int_fmt, t.comm.size) < 64))
        },
        Type::Flags(t) => dir == Dir::Out || (!t.bit_mask ==> t.vals@.len() > 0),
        Type::Proc(t) => dir == Dir::Out || t.values_per_proc > 0,
        Type::Const(_) | Type::Len(_) | Type::Csum(_) => true,
        Type::Vma(_) => dir == Dir::Out,
        Type::Array(t) => (t.range matches Some((s, e)) ==> s <= e) && gen_ok(target, *t.elem, dir),
        Type::Struct(t) => forall|i: int|
            0 <= i < t.fields@.len() ==> gen_ok(target, *(#[trigger] t.fields@[i]).ty, field_dir(t.fields@[i], dir)),
        Type::Union(t) => t.fields@.len() > 0 && forall|i: int|
            0 <= i < t.fields@.len() ==> gen_ok(target, *(#[trigger] t.fields@[i]).ty, field_dir(t.fields@[i], dir)),
        _ => false,
    }
}

/// The most resource ids generating a value of type `ty` can take.
pub open spec fn ids_needed(ty: Type) -> nat
    decreases ty, 1nat, 0nat,
{
    match ty {
        Type::Res(_) => 1,
        Type::Array(t) => {
            proof {
                lemma_array_elem_decreases(t);
            }
            max_len(t) * ids_needed(*t.elem)
        },
        Type::Struct(t) => fields_ids(ty, t.fields@.len()),
        Type::Union(t) => fields_ids(ty, t.fields@.len()),
        _ => 0,
    }
}

/// The resource ids the first `k` fields of `parent` can take.
pub open spec fn fields_ids(parent: Type, k: nat) -> nat
    decreases parent, 0nat, k,
{
    let fs = fields_of(parent);
    if k == 0 || k > fs.len() {
        0
    } else {
        proof {
            lemma_field_decreases(parent, fs, k - 1);
        }
        fields_ids(parent, (k - 1) as nat) + ids_needed(*fs[k - 1].ty)
    }
}

proof fn lemma_fields_ids_grow(parent: Type, j: nat, k: nat)
    requires
        j <= k <= fields_of(parent).len(),
    ensures
        fields_ids(parent, j) <= fields_ids(parent, k),
    decreases k,
{
    if j < k {
        lemma_fields_ids_grow(parent, j, (k - 1) as nat);
    }
}

/// `v` is a value generated for type `ty` in direction `dir`: the type's
/// default value, or a value of the type's id and `dir` of the type's
/// shape: an integer for the integer types, a resource for a resource
/// type, for an array as many elements as its range allows (at most 10
/// without one), for a struct one member per field, for a union a member of
/// one of its fields, each member itself so made in its own direction.
pub open spec fn shaped(ty: Type, dir: Dir, v: Value) -> bool
    decreases ty,
{
    ||| ty.is_default_of(dir, v)
    ||| v.comm == (ValueCommon { ty_id: ty.spec_comm().id, dir }) && match ty {
        Type::Res(_) => v.inner is ResValue,
        Type::Const(_) | Type::Int(_) | Type::Flags(_) | Type::Len(_) | Type::Proc(_) | Type::Csum(_) => v.inner is IntegerValue,
        Type::Array(t) => v.inner matches ValueKindInner::GroupValue(g) && g.comm == v.comm && (match t.range {
            Some((s, e)) => s <= g.inner@.len() <= e,
            None => g.inner@.len() <= 10,
        }) && forall|i: int| 0 <= i < g.inner@.len() ==> shaped(*t.elem, dir, #[trigger] g.inner@[i]),
        Type::Struct(t) => v.inner matches ValueKindInner::GroupValue(g) && g.comm == v.comm && g.inner@.len()
            == t.fields@.len() && forall|i: int|
            0 <= i < g.inner@.len() ==> shaped(*t.fields@[i].ty, field_dir(t.fields@[i], dir), #[trigger] g.inner@[i]),
        Type::Union(t) => v.inner matches ValueKindInner::UnionValue(u) && u.comm == v.comm && u.index < t.fields@.len()
            && shaped(*t.fields@[u.index as int].ty, field_dir(t.fields@[u.index as int], dir), *u.option),
        _ => false,
    }
}

/// What generating a value keeps of the context: it stays well formed, its
/// counter moves up by at most `n` ids, and only the resources change.
pub open spec fn ctx_kept(o: Context, f: Context, n: nat) -> bool {
    &&& f.wf()
    &&& o.spec_next_res_id() <= f.spec_next_res_id() <= o.spec_next_res_id() + n
    &&& f.spec_calls() == o.spec_calls()
    &&& f.spec_mem() == o.spec_mem()
    &&& f.spec_vma() == o.spec_vma()
    &&& f.spec_strs() == o.spec_strs()
    &&& f.spec_filenames() == o.spec_filenames()
}

/// The value of a type: an output of an integer, flags, per-process, vma or
/// constant type takes its default value; an optional type, with
/// probability 1/5, a special resource value or its default value; else
/// the generator of its kind.
pub fn gen_ty_value(ctx: &mut Context, target: &Target, rng: &mut SmallRng, ty: &Type, dir: Dir) -> (v: Value)
    requires
        old(ctx).wf(),
        target.wf(),
        gen_ok(*target, *ty, dir),
        old(ctx).spec_next_res_id() + ids_needed(*ty) <= usize::MAX,
    ensures
        shaped(*ty, dir, v),
        ctx_kept(*old(ctx), *final(ctx), ids_needed(*ty)),
    decreases *ty, 1nat,
{
    let out_default = match ty {
        Type::Const(_) | Type::Int(_) | Type::Flags(_) | Type::Proc(_) | Type::Vma(_) => dir == Dir::Out,
        _ => false,
    };
    if out_default {
        return ty.default_value(dir);
    }
    if ty.optional() && rand_ratio(rng, 1, 5) {
        match ty {
            Type::Res(t) => {
                let val = special_res_val(rng, t);
                return Value::from_res(ResValue::new_null(t.comm.id, dir, val));
            },
            _ => {
                return ty.default_value(dir);
            },
        }
    }
    match ty {
        Type::Res(_) => gen_res(ctx, target, rng, ty, dir),
        Type::Const(_) => gen_const(ty, dir),
        Type::Int(_) => gen_int(rng, ty, dir),
        Type::Flags(_) => gen_flags(rng, ty, dir),
        Type::Len(_) => gen_len(ty, dir),
        Type::Proc(_) => gen_proc(rng, ty, dir),
        Type::Csum(_) => gen_csum(rng, ty, dir),
        Type::Array(_) => gen_array(ctx, target, rng, ty, dir),
        Type::Struct(_) => gen_struct(ctx, target, rng, ty, dir),
        Type::Union(_) => gen_union(ctx, target, rng, ty, dir),
        _ => {
            proof {
                assert(false);
            }
            ty.default_value(dir)
        },
    }
}

/// An array: a length drawn from its range (0 to 10 without one), then
/// that many elements.
pub fn gen_array(ctx: &mut Context, target: &Target, rng: &mut SmallRng, ty: &Type, dir: Dir) -> (v: Value)
    requires
        ty is Array,
        old(ctx).wf(),
        target.wf(),
        gen_ok(*target, *ty, dir),
        old(ctx).spec_next_res_id() + ids_needed(*ty) <= usize::MAX,
    ensures
        shaped(*ty, dir, v),
        ctx_kept(*old(ctx), *final(ctx), ids_needed(*ty)),
    decreases *ty, 0nat,
{
    let t = match ty {
        Type::Array(t) => t,
        _ => {
            proof {
                assert(false);
            }
            return ty.default_value(dir);
        },
    };
    let ghost o = *ctx;
    let ghost ide = ids_needed(*t.elem);
    let (s, e) = match t.range {
        Some(r) => r,
        None => (0, 10),
    };
    proof {
        lemma_array_elem_decreases(*t);
        assert(e == max_len(*t));
    }
    let len = rand_in_range(rng, s, e);
    let mut elems: Vec<Value> = Vec::new();
    let mut i: u64 = 0;
    while i < len
        invariant
            ty == Type::Array(*t),
            target.wf(),
            gen_ok(*target, *t.elem, dir),
            e == max_len(*t),
            len <= e,
            i <= len,
            ide == ids_needed(*t.elem),
            ids_needed(*ty) == e * ide,
            o.spec_next_res_id() + e * ide <= usize::MAX,
            elems@.len() == i,
            forall|j: int| 0 <= j < i ==> shaped(*t.elem, dir, #[trigger] elems@[j]),
            ctx_kept(o, *ctx, (i * ide) as nat),
        decreases len - i,
    {
        proof {
            assert((i + 1) * ide <= e * ide) by (nonlinear_arith)
                requires
                    i + 1 <= e,;
            assert((i + 1) * ide == i * ide + ide) by (nonlinear_arith);
        }
        let x = gen_ty_value(ctx, target, rng, &t.elem, dir);
        elems.push(x);
        i = i + 1;
    }
    proof {
        assert(len * ide <= e * ide) by (nonlinear_arith)
            requires
                len <= e,;
    }
    Value::from_group(GroupValue::new(t.comm.id, dir, elems))
}

/// A struct: one member per field, each in the field's own direction when
/// it has one.
pub fn gen_struct(ctx: &mut Context, target: &Target, rng: &mut SmallRng, ty: &Type, dir: Dir) -> (v: Value)
    requires
        ty is Struct,
        old(ctx).wf(),
        target.wf(),
        gen_ok(*target, *ty, dir),
        old(ctx).spec_next_res_id() + ids_needed(*ty) <= usize::MAX,
    ensures
        shaped(*ty, dir, v),
        ctx_kept(*old(ctx), *final(ctx), ids_needed(*ty)),
    decreases *ty, 0nat,
{
    let t = match ty {
        Type::Struct(t) => t,
        _ => {
            proof {
                assert(false);
            }
            return ty.default_value(dir);
        },
    };
    let ghost o = *ctx;
    let mut members: Vec<Value> = Vec::new();
    let mut i: usize = 0;
    while i < t.fields.len()
        invariant
            ty == Type::Struct(*t),
            target.wf(),
            gen_ok(*target, *ty, dir),
            i <= t.fields@.len(),
            fields_of(*ty) == t.fields@,
            ids_needed(*ty) == fields_ids(*ty, t.fields@.len()),
            o.spec_next_res_id() + ids_needed(*ty) <= usize::MAX,
            members@.len() == i,
            forall|j: int|
                0 <= j < i ==> shaped(*t.fields@[j].ty, field_dir(t.fields@[j], dir), #[trigger] members@[j]),
            ctx_kept(o, *ctx, fields_ids(*ty, i as nat)),
        decreases t.fields.len() - i,
    {
        let f = &t.fields[i];
        let fdir = match f.dir {
            Some(d) => d,
            None => dir,
        };
        proof {
            lemma_field_decreases(*ty, t.fields@, i as int);
            lemma_fields_ids_grow(*ty, (i + 1) as nat, t.fields@.len());
            assert(gen_ok(*target, *t.fields@[i as int].ty, field_dir(t.fields@[i as int], dir)));
        }
        let x = gen_ty_value(ctx, target, rng, &f.ty, fdir);
        members.push(x);
        i = i + 1;
    }
    Value::from_group(GroupValue::new(t.comm.id, dir, members))
}

/// A union: a field drawn at random and a member of it, in the field's own
/// direction when it has one.
pub fn gen_union(ctx: &mut Context, target: &Target, rng: &mut SmallRng, ty: &Type, dir: Dir) -> (v: Value)
    requires
        ty is Union,
        old(ctx).wf(),
        target.wf(),
        gen_ok(*target, *ty, dir),
        old(ctx).spec_next_res_id() + ids_needed(*ty) <= usize::MAX,
    ensures
        shaped(*ty, dir, v),
        ctx_kept(*old(ctx), *final(ctx), ids_needed(*ty)),
    decreases *ty, 0nat,
{
    let t = match ty {
        Type::Union(t) => t,
        _ => {
            proof {
                assert(false);
            }
            return ty.default_value(dir);
        },
    };
    let idx = rand_index(rng, t.fields.len());
    let f = &t.fields[idx];
    let fdir = match f.dir {
        Some(d) => d,
        None => dir,
    };
    proof {
        assert(fields_of(*ty) == t.fields@);
        lemma_field_decreases(*ty, t.fields@, idx as int);
        lemma_fields_ids_grow(*ty, (idx + 1) as nat, t.fields@.len());
        assert(gen_ok(*target, *t.fields@[idx as int].ty, field_dir(t.fields@[idx as int], dir)));
    }
    let x = gen_ty_value(ctx, target, rng, &f.ty, fdir);
    Value::from_union(UnionValue::new(t.comm.id, dir, idx as u64, x))
}

} // verus!

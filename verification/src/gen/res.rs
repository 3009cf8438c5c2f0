//! Generation of resource values: a new resource for an output, else a
//! resource already generated of a fitting kind, else a special value.
use crate::context::Context;
use crate::rng::{rand_index, rand_ratio};
use crate::strings::strs_view;
use crate::target::{kind_index, kind_of, lemma_kind_of, ResKindId, Target};
use crate::ty::res::ResType;
use crate::ty::{Dir, Type};
use crate::value::{ResValue, ResValueId, ResValueKind, Value, ValueCommon, ValueKindInner};
use vstd::prelude::*;

verus! {

/// The resource type can be generated against the target: its kind and
/// its most general kind are kinds of the target, and an output has a
/// special value to start from.
pub open spec fn res_gen_ok(target: Target, t: ResType, dir: Dir) -> bool {
    &&& strs_view(target.res_kinds@).contains(t.name@)
    &&& t.kinds@.len() > 0
    &&& strs_view(target.res_kinds@).contains(t.kinds@[0]@)
    &&& (dir == Dir::Out ==> t.vals@.len() > 0)
}

/// The kind of the resource type `t`.
pub open spec fn kind_of_res(target: Target, t: ResType) -> ResKindId {
    kind_of(target.res_kinds@, t.name@)
}

/// Resources of kind `src` may stand for one of type `dst`: `src` is a sub
/// kind of `dst`'s kind, or of `dst`'s most general kind.
pub open spec fn reusable_kind(target: Target, dst: ResType, src: ResKindId) -> bool {
    let dk = kind_of(target.res_kinds@, dst.name@);
    let fk = kind_of(target.res_kinds@, dst.kinds@[0]@);
    ||| target.res_sub_ty_mapping@[dk as int]@.contains(src)
    ||| target.res_sub_ty_mapping@[fk as int]@.contains(src)
}

/// Whether the sub kinds `subs` hold `k`.
fn holds_kind(subs: &[ResKindId], k: ResKindId) -> (r: bool)
    ensures
        r == subs@.contains(k),
{
    let mut i: usize = 0;
    while i < subs.len()
        invariant
            i <= subs@.len(),
            forall|j: int| 0 <= j < i ==> subs@[j] != k,
        decreases subs.len() - i,
    {
        if subs[i] == k {
            return true;
        }
        i = i + 1;
    }
    false
}

/// The index of a kind named `name` that the target has.
pub(crate) fn kind_named(target: &Target, name: &String) -> (r: ResKindId)
    requires
        target.wf(),
        strs_view(target.res_kinds@).contains(name@),
    ensures
        r == kind_of(target.res_kinds@, name@),
        r < target.res_kinds@.len(),
{
    match kind_index(&target.res_kinds, name) {
        Some(k) => {
            proof {
                lemma_kind_of(target.res_kinds@, name@, k as int);
            }
            k
        },
        None => {
            proof {
                assert(false);
            }
            0
        },
    }
}

/// Whether resources of kind `src` are used for type `dst`: always when
/// `src` is a sub kind of `dst`'s kind, else, with probability 1/50, when it
/// is a sub kind of `dst`'s most general kind.
pub fn should_use(target: &Target, rng: &mut rand::rngs::SmallRng, dst: &ResType, src: ResKindId) -> (r: bool)
    requires
        target.wf(),
        res_gen_ok(*target, *dst, Dir::In),
    ensures
        r ==> reusable_kind(*target, *dst, src),
        target.res_sub_ty_mapping@[kind_of_res(*target, *dst) as int]@.contains(src) ==> r,
{
    let dk = kind_named(target, &dst.name);
    if holds_kind(target.res_sub_tys(dk), src) {
        return true;
    }
    let fk = kind_named(target, &dst.kinds[0]);
    rand_ratio(rng, 1, 50) && holds_kind(target.res_sub_tys(fk), src)
}

/// `id` is a resource the context generated of a kind that may stand for
/// type `t` (see `reusable_kind`).
pub open spec fn reused_ok(ctx: Context, target: Target, t: ResType, id: ResValueId) -> bool {
    exists|k: ResKindId| ctx.spec_res_kinds().contains(k) && reusable_kind(target, t, k) && #[trigger] ctx.spec_res_ids(k).contains(id)
}

/// A resource of type `t` already generated of a fitting kind (see
/// `should_use`): a kind among the fitting ones, then one of its ids.
pub fn res_reusing(ctx: &Context, target: &Target, rng: &mut rand::rngs::SmallRng, t: &ResType) -> (r: Option<ResValueId>)
    requires
        ctx.wf(),
        target.wf(),
        res_gen_ok(*target, *t, Dir::In),
    ensures
        r matches Some(id) ==> reused_ok(*ctx, *target, *t, id),
{
    let res = ctx.res();
    let mut kinds: Vec<ResKindId> = Vec::new();
    let mut i: usize = 0;
    while i < res.len()
        invariant
            target.wf(),
            res_gen_ok(*target, *t, Dir::In),
            res@ == ctx.spec_res_kinds(),
            i <= res@.len(),
            forall|j: int| 0 <= j < kinds@.len() ==> ctx.spec_res_kinds().contains(#[trigger] kinds@[j]) && reusable_kind(*target, *t, kinds@[j]),
        decreases res.len() - i,
    {
        if should_use(target, rng, t, res[i]) {
            kinds.push(res[i]);
        }
        i = i + 1;
    }
    if kinds.len() == 0 {
        return None;
    }
    let ki = rand_index(rng, kinds.len());
    let kind = kinds[ki];
    assert(ctx.spec_res_kinds().contains(kinds@[ki as int]) && reusable_kind(*target, *t, kinds@[ki as int]));
    let ids = ctx.res_ids_of(kind);
    if ids.len() == 0 {
        return None;
    }
    let ii = rand_index(rng, ids.len());
    let id = ids[ii];
    proof {
        assert(ids@[ii as int] == id);
        assert(ctx.spec_res_ids(kind).contains(id));
        assert(ctx.spec_res_kinds().contains(kind) && reusable_kind(*target, *t, kind) && ctx.spec_res_ids(kind).contains(id));
        assert(reused_ok(*ctx, *target, *t, id));
    }
    Some(id)
}

/// The value of an input resource of type id `ty_id`: a reference to the
/// resource `reused` when there is one, else the special value `special`.
pub open spec fn in_res_spec(ty_id: crate::ty::TypeId, dir: Dir, reused: Option<ResValueId>, special: u64) -> Value {
    let c = ValueCommon { ty_id, dir };
    match reused {
        Some(id) => Value {
            comm: c,
            inner: ValueKindInner::ResValue(ResValue { comm: c, kind: ResValueKind::Ref(id), val: 0, op_div: 0, op_add: 0 }),
        },
        None => Value {
            comm: c,
            inner: ValueKindInner::ResValue(ResValue { comm: c, kind: ResValueKind::Null, val: special, op_div: 0, op_add: 0 }),
        },
    }
}

/// See `in_res_spec`.
pub fn in_res_value(ty_id: crate::ty::TypeId, dir: Dir, reused: Option<ResValueId>, special: u64) -> (r: Value)
    ensures
        r == in_res_spec(ty_id, dir, reused, special),
{
    match reused {
        Some(id) => Value::from_res(ResValue::new_ref(ty_id, dir, id)),
        None => Value::from_res(ResValue::new_null(ty_id, dir, special)),
    }
}

/// A special value of the resource type: one of its special values, or 0
/// when it has none.
pub fn special_res_val(rng: &mut rand::rngs::SmallRng, t: &ResType) -> (r: u64)
    ensures
        t.vals@.len() == 0 ==> r == 0,
        t.vals@.len() > 0 ==> t.vals@.contains(r),
{
    if t.vals.len() == 0 {
        0
    } else {
        let i = rand_index(rng, t.vals.len());
        let v = t.vals[i];
        assert(t.vals@[i as int] == v);
        v
    }
}

/// The value of a new resource of type `t` with id `id`.
pub open spec fn new_res_spec(t: ResType, id: ResValueId) -> Value {
    let c = ValueCommon { ty_id: t.comm.id, dir: Dir::Out };
    Value {
        comm: c,
        inner: ValueKindInner::ResValue(ResValue { comm: c, kind: ResValueKind::Own(id), val: t.vals@[0], op_div: 0, op_add: 0 }),
    }
}

/// A resource value of type `ty` in direction `dir`. An output is a new
/// resource: the next id, recorded under the type's kind. An input is, for
/// each of the two ways to find one, unless skipped with probability 1/10:
/// a resource already generated of a fitting kind (see `res_reusing`), or a
/// call producing one, which this library does not build, so that way
/// finds none; failing both, a special value (see `special_res_val`).
pub fn gen_res(ctx: &mut Context, target: &Target, rng: &mut rand::rngs::SmallRng, ty: &Type, dir: Dir) -> (v: Value)
    requires
        ty is Res,
        old(ctx).wf(),
        target.wf(),
        res_gen_ok(*target, ty->Res_0, dir),
        dir == Dir::Out ==> old(ctx).spec_next_res_id() < usize::MAX,
    ensures
        final(ctx).wf(),
        final(ctx).spec_calls() == old(ctx).spec_calls(),
        final(ctx).spec_mem() == old(ctx).spec_mem(),
        final(ctx).spec_vma() == old(ctx).spec_vma(),
        final(ctx).spec_strs() == old(ctx).spec_strs(),
        final(ctx).spec_filenames() == old(ctx).spec_filenames(),
        dir == Dir::Out ==> {
            let k = kind_of_res(*target, ty->Res_0);
            let id = old(ctx).spec_next_res_id() as ResValueId;
            &&& v == new_res_spec(ty->Res_0, id)
            &&& final(ctx).spec_next_res_id() == old(ctx).spec_next_res_id() + 1
            &&& final(ctx).spec_res_ids(k) == old(ctx).spec_res_ids(k).push(id)
            &&& forall|k2: ResKindId| k2 != k ==> final(ctx).spec_res_ids(k2) == old(ctx).spec_res_ids(k2)
            &&& final(ctx).spec_res_kinds() == if old(ctx).spec_res_kinds().contains(k) {
                old(ctx).spec_res_kinds()
            } else {
                old(ctx).spec_res_kinds().push(k)
            }
        },
        dir != Dir::Out ==> {
            &&& final(ctx).spec_next_res_id() == old(ctx).spec_next_res_id()
            &&& final(ctx).spec_res_kinds() == old(ctx).spec_res_kinds()
            &&& forall|k2: ResKindId| final(ctx).spec_res_ids(k2) == old(ctx).spec_res_ids(k2)
            &&& exists|reused: Option<ResValueId>, special: u64|
                v == in_res_spec(ty->Res_0.comm.id, dir, reused, special) && (reused matches Some(id) ==> reused_ok(*old(ctx), *target, ty->Res_0, id)) && (reused is None ==> (ty->Res_0.vals@.len() == 0 ==> special == 0)
                    && (ty->Res_0.vals@.len() > 0 ==> ty->Res_0.vals@.contains(special)))
        },
{
    let t = match ty {
        Type::Res(t) => t,
        _ => {
            proof {
                assert(false);
            }
            return Value::from_res(ResValue::new_null(0, dir, 0));
        },
    };
    if dir == Dir::Out {
        let k = kind_named(target, &t.name);
        let id = ctx.next_res_id();
        ctx.record_res(k, id);
        let v = Value::from_res(ResValue::new_res(t.comm.id, id, t.vals[0]));
        return v;
    }
    let mut reused: Option<ResValueId> = None;
    if !rand_ratio(rng, 1, 10) {
        reused = res_reusing(ctx, target, rng, t);
    }
    if reused.is_none() {
        let _ = rand_ratio(rng, 1, 10);
    }
    let special = match reused {
        Some(_) => 0,
        None => special_res_val(rng, t),
    };
    in_res_value(t.comm.id, dir, reused, special)
}

} // verus!

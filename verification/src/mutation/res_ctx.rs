//! Restoring into a context the resources that the calls before a position
//! produce, so that values generated at that position can use them.
use crate::context::Context;
use crate::gen::res::kind_named;
use crate::parse::ParsedCall;
use crate::size::{lookup_ty, ty_with_id};
use crate::strings::strs_view;
use crate::target::{has_ty, kind_of, ResKindId, Target};
use crate::ty::{Dir, Type};
use crate::value::{ResValueId, ResValueKind, Value, ValueKindInner};
use vstd::prelude::*;

verus! {

/// The resources the tree of `v` produces, with the name of their kind:
/// those of the resource values that are not inputs, own their resource
/// and have a resource type of `tys`.
pub open spec fn out_res_in_value(tys: Seq<Type>, v: Value) -> Set<(Seq<char>, ResValueId)>
    decreases v, 1nat,
{
    match v.inner {
        ValueKindInner::PtrValue(p) => match p.pointee {
            Some(b) => out_res_in_value(tys, *b),
            None => Set::empty(),
        },
        ValueKindInner::GroupValue(g) => out_res_in_values(tys, g.inner@),
        ValueKindInner::UnionValue(u) => out_res_in_value(tys, *u.option),
        ValueKindInner::ResValue(r) => if v.comm.dir != Dir::In && has_ty(tys, v.comm.ty_id) && ty_with_id(
            tys,
            v.comm.ty_id,
        ) is Res && r.kind is Own {
            set![(ty_with_id(tys, v.comm.ty_id)->Res_0.name@, r.kind->Own_0)]
        } else {
            Set::empty()
        },
        _ => Set::empty(),
    }
}

/// The resources the trees of `vs` produce.
pub open spec fn out_res_in_values(tys: Seq<Type>, vs: Seq<Value>) -> Set<(Seq<char>, ResValueId)>
    decreases vs, 0nat,
{
    if vs.len() == 0 {
        Set::empty()
    } else {
        out_res_in_values(tys, vs.drop_last()) + out_res_in_value(tys, vs.last())
    }
}

/// The resources a call produces, in its arguments and its result.
pub open spec fn out_res_in_call(tys: Seq<Type>, c: ParsedCall) -> Set<(Seq<char>, ResValueId)> {
    out_res_in_values(tys, c.args@) + match c.ret {
        Some(r) => out_res_in_value(tys, r),
        None => Set::empty(),
    }
}

/// The resources the calls `cs` produce.
pub open spec fn out_res_in_calls(tys: Seq<Type>, cs: Seq<ParsedCall>) -> Set<(Seq<char>, ResValueId)>
    decreases cs.len(),
{
    if cs.len() == 0 {
        Set::empty()
    } else {
        out_res_in_calls(tys, cs.drop_last()) + out_res_in_call(tys, cs.last())
    }
}

/// Every resource value in the tree of `v` has a type of `tys`, a resource
/// type whose kind is one of `kinds`.
pub open spec fn res_kinds_known(tys: Seq<Type>, kinds: Seq<Seq<char>>, v: Value) -> bool
    decreases v,
{
    match v.inner {
        ValueKindInner::PtrValue(p) => match p.pointee {
            Some(b) => res_kinds_known(tys, kinds, *b),
            None => true,
        },
        ValueKindInner::GroupValue(g) => forall|i: int|
            0 <= i < g.inner@.len() ==> res_kinds_known(tys, kinds, #[trigger] g.inner@[i]),
        ValueKindInner::UnionValue(u) => res_kinds_known(tys, kinds, *u.option),
        ValueKindInner::ResValue(_) => has_ty(tys, v.comm.ty_id) && (ty_with_id(tys, v.comm.ty_id) matches Type::Res(
            t,
        ) && kinds.contains(t.name@)),
        _ => true,
    }
}

/// Every resource value of the call, in its arguments and its result, has
/// a resource type of `tys` whose kind is one of `kinds`.
pub open spec fn call_res_kinds_known(tys: Seq<Type>, kinds: Seq<Seq<char>>, c: ParsedCall) -> bool {
    &&& forall|j: int| 0 <= j < c.args@.len() ==> res_kinds_known(tys, kinds, #[trigger] c.args@[j])
    &&& c.ret matches Some(r) ==> res_kinds_known(tys, kinds, r)
}

/// The ids of kind `k` among the pairs `s`.
pub open spec fn kind_ids(kinds: Seq<String>, s: Set<(Seq<char>, ResValueId)>, k: ResKindId) -> Set<ResValueId> {
    Set::new(|id: ResValueId| exists|name: Seq<char>| #[trigger] s.contains((name, id)) && kind_of(kinds, name) == k)
}

/// The kinds of the pairs `s`.
pub open spec fn kinds_in(kinds: Seq<String>, s: Set<(Seq<char>, ResValueId)>) -> Set<ResKindId> {
    Set::new(|k: ResKindId| exists|p: (Seq<char>, ResValueId)| #[trigger] s.contains(p) && kind_of(kinds, p.0) == k)
}

/// `f` is the context `o` with the resources `s` recorded: their kinds
/// join the kinds, their ids the ids of their kind; nothing else changes.
pub open spec fn res_recorded(o: Context, f: Context, kinds: Seq<String>, s: Set<(Seq<char>, ResValueId)>) -> bool {
    &&& f.wf()
    &&& f.spec_next_res_id() == o.spec_next_res_id()
    &&& f.spec_calls() == o.spec_calls()
    &&& f.spec_mem() == o.spec_mem()
    &&& f.spec_vma() == o.spec_vma()
    &&& f.spec_strs() == o.spec_strs()
    &&& f.spec_filenames() == o.spec_filenames()
    &&& f.spec_res_kinds().to_set() == o.spec_res_kinds().to_set() + kinds_in(kinds, s)
    &&& forall|k: ResKindId| #[trigger] f.spec_res_ids(k).to_set() == o.spec_res_ids(k).to_set() + kind_ids(kinds, s, k)
}

proof fn lemma_push_to_set<A>(s: Seq<A>, x: A)
    ensures
        s.push(x).to_set() == s.to_set().insert(x),
{
    assert forall|y: A| s.push(x).to_set().contains(y) <==> s.to_set().insert(x).contains(y) by {
        if s.contains(y) {
            let i = choose|i: int| 0 <= i < s.len() && s[i] == y;
            assert(s.push(x)[i] == y);
        }
        if y == x {
            assert(s.push(x)[s.len() as int] == x);
        }
        if s.push(x).contains(y) {
            let i = choose|i: int| 0 <= i < s.push(x).len() && s.push(x)[i] == y;
            if i < s.len() {
                assert(s[i] == y);
            }
        }
    }
    assert(s.push(x).to_set() =~= s.to_set().insert(x));
}

proof fn lemma_recorded_none(o: Context, kinds: Seq<String>)
    requires
        o.wf(),
    ensures
        res_recorded(o, o, kinds, Set::empty()),
{
    assert(kinds_in(kinds, Set::empty()) =~= Set::empty());
    assert(o.spec_res_kinds().to_set() + Set::empty() =~= o.spec_res_kinds().to_set());
    assert forall|k: ResKindId| #[trigger] o.spec_res_ids(k).to_set() == o.spec_res_ids(k).to_set() + kind_ids(
        kinds,
        Set::empty(),
        k,
    ) by {
        assert(kind_ids(kinds, Set::empty(), k) =~= Set::empty());
        assert(o.spec_res_ids(k).to_set() + Set::empty() =~= o.spec_res_ids(k).to_set());
    }
}

proof fn lemma_recorded_trans(
    a: Context,
    b: Context,
    c: Context,
    kinds: Seq<String>,
    s1: Set<(Seq<char>, ResValueId)>,
    s2: Set<(Seq<char>, ResValueId)>,
)
    requires
        res_recorded(a, b, kinds, s1),
        res_recorded(b, c, kinds, s2),
    ensures
        res_recorded(a, c, kinds, s1 + s2),
{
    assert forall|k: ResKindId| #[trigger] kinds_in(kinds, s1 + s2).contains(k) <==> (kinds_in(kinds, s1) + kinds_in(
        kinds,
        s2,
    )).contains(k) by {
        if kinds_in(kinds, s1 + s2).contains(k) {
            let p = choose|p: (Seq<char>, ResValueId)| (s1 + s2).contains(p) && kind_of(kinds, p.0) == k;
            if s1.contains(p) {
                assert(kinds_in(kinds, s1).contains(k));
            } else {
                assert(kinds_in(kinds, s2).contains(k));
            }
        }
        if kinds_in(kinds, s1).contains(k) {
            let p = choose|p: (Seq<char>, ResValueId)| s1.contains(p) && kind_of(kinds, p.0) == k;
            assert((s1 + s2).contains(p));
        }
        if kinds_in(kinds, s2).contains(k) {
            let p = choose|p: (Seq<char>, ResValueId)| s2.contains(p) && kind_of(kinds, p.0) == k;
            assert((s1 + s2).contains(p));
        }
    }
    assert(kinds_in(kinds, s1 + s2) =~= kinds_in(kinds, s1) + kinds_in(kinds, s2));
    assert(c.spec_res_kinds().to_set() =~= a.spec_res_kinds().to_set() + kinds_in(kinds, s1 + s2));
    assert forall|k: ResKindId| #[trigger] c.spec_res_ids(k).to_set() == a.spec_res_ids(k).to_set() + kind_ids(
        kinds,
        s1 + s2,
        k,
    ) by {
        assert(b.spec_res_ids(k).to_set() == a.spec_res_ids(k).to_set() + kind_ids(kinds, s1, k));
        assert(c.spec_res_ids(k).to_set() == b.spec_res_ids(k).to_set() + kind_ids(kinds, s2, k));
        assert forall|id: ResValueId| #[trigger] kind_ids(kinds, s1 + s2, k).contains(id) <==> (kind_ids(kinds, s1, k)
            + kind_ids(kinds, s2, k)).contains(id) by {
            if kind_ids(kinds, s1 + s2, k).contains(id) {
                let name = choose|name: Seq<char>| (s1 + s2).contains((name, id)) && kind_of(kinds, name) == k;
                if s1.contains((name, id)) {
                    assert(kind_ids(kinds, s1, k).contains(id));
                } else {
                    assert(kind_ids(kinds, s2, k).contains(id));
                }
            }
            if kind_ids(kinds, s1, k).contains(id) {
                let name = choose|name: Seq<char>| s1.contains((name, id)) && kind_of(kinds, name) == k;
                assert((s1 + s2).contains((name, id)));
            }
            if kind_ids(kinds, s2, k).contains(id) {
                let name = choose|name: Seq<char>| s2.contains((name, id)) && kind_of(kinds, name) == k;
                assert((s1 + s2).contains((name, id)));
            }
        }
        assert(kind_ids(kinds, s1 + s2, k) =~= kind_ids(kinds, s1, k) + kind_ids(kinds, s2, k));
        assert(c.spec_res_ids(k).to_set() =~= a.spec_res_ids(k).to_set() + kind_ids(kinds, s1 + s2, k));
    }
}

proof fn lemma_out_res_values_cover(tys: Seq<Type>, vs: Seq<Value>, i: int)
    requires
        0 <= i < vs.len(),
    ensures
        out_res_in_value(tys, vs[i]).subset_of(out_res_in_values(tys, vs)),
    decreases vs.len(),
{
    if i < vs.len() - 1 {
        lemma_out_res_values_cover(tys, vs.drop_last(), i);
        assert(vs.drop_last()[i] == vs[i]);
    }
}

/// Every resource produced anywhere in the tree of `v` is among those `v`
/// produces: the pointee of a pointer, each element of a group and the
/// member of a union give all of theirs, and a resource value that is not
/// an input and owns a resource of a resource type gives that resource.
pub proof fn lemma_out_res_covers(tys: Seq<Type>, v: Value)
    ensures
        (v.inner matches ValueKindInner::PtrValue(p) && p.pointee is Some) ==> out_res_in_value(
            tys,
            *v.inner->PtrValue_0.pointee->0,
        ).subset_of(out_res_in_value(tys, v)),
        v.inner is GroupValue ==> forall|i: int|
            0 <= i < v.inner->GroupValue_0.inner@.len() ==> out_res_in_value(
                tys,
                #[trigger] v.inner->GroupValue_0.inner@[i],
            ).subset_of(out_res_in_value(tys, v)),
        v.inner is UnionValue ==> out_res_in_value(tys, *v.inner->UnionValue_0.option).subset_of(
            out_res_in_value(tys, v),
        ),
        (v.inner matches ValueKindInner::ResValue(r) && r.kind is Own) && v.comm.dir != Dir::In && has_ty(
            tys,
            v.comm.ty_id,
        ) && ty_with_id(tys, v.comm.ty_id) is Res ==> out_res_in_value(tys, v).contains(
            (ty_with_id(tys, v.comm.ty_id)->Res_0.name@, v.inner->ResValue_0.kind->Own_0),
        ),
{
    if v.inner is GroupValue {
        let g = v.inner->GroupValue_0;
        assert forall|i: int| 0 <= i < g.inner@.len() implies out_res_in_value(tys, #[trigger] g.inner@[i]).subset_of(
            out_res_in_value(tys, v),
        ) by {
            lemma_out_res_values_cover(tys, g.inner@, i);
        }
    }
}

/// A resource recorded into a context is then among the ids of its kind.
pub proof fn lemma_recorded_has(
    o: Context,
    f: Context,
    kinds: Seq<String>,
    s: Set<(Seq<char>, ResValueId)>,
    name: Seq<char>,
    id: ResValueId,
)
    requires
        res_recorded(o, f, kinds, s),
        s.contains((name, id)),
    ensures
        f.spec_res_ids(kind_of(kinds, name)).contains(id),
        f.spec_res_kinds().contains(kind_of(kinds, name)),
{
    let k = kind_of(kinds, name);
    assert(kind_ids(kinds, s, k).contains(id));
    assert(f.spec_res_ids(k).to_set().contains(id));
    assert(kinds_in(kinds, s).contains(k));
    assert(f.spec_res_kinds().to_set().contains(k));
}

/// Records the resources the tree of `v` produces (see `out_res_in_value`)
/// under their kinds, in pre-order.
fn record_value_res(ctx: &mut Context, target: &Target, v: &Value)
    requires
        old(ctx).wf(),
        target.wf(),
        res_kinds_known(target.tys@, strs_view(target.res_kinds@), *v),
    ensures
        res_recorded(*old(ctx), *final(ctx), target.res_kinds@, out_res_in_value(target.tys@, *v)),
    decreases *v,
{
    let ghost o = *ctx;
    let ghost kinds = target.res_kinds@;
    proof {
        lemma_recorded_none(o, kinds);
    }
    match &v.inner {
        ValueKindInner::ResValue(r) => {
            if v.comm.dir != Dir::In {
                match r.kind {
                    ResValueKind::Own(id) => {
                        let ty = lookup_ty(target, v.comm.ty_id);
                        match ty {
                            Type::Res(t) => {
                                let k = kind_named(target, &t.name);
                                ctx.record_res(k, id);
                                proof {
                                    let s = out_res_in_value(target.tys@, *v);
                                    assert(s =~= set![(t.name@, id)]);
                                    assert(s.contains((t.name@, id)));
                                    assert(kinds_in(kinds, s) =~= set![k]);
                                    lemma_push_to_set(o.spec_res_kinds(), k);
                                    if o.spec_res_kinds().contains(k) {
                                        assert(o.spec_res_kinds().to_set().contains(k));
                                    }
                                    assert(ctx.spec_res_kinds().to_set() =~= o.spec_res_kinds().to_set() + kinds_in(
                                        kinds,
                                        s,
                                    ));
                                    assert forall|k2: ResKindId| #[trigger] ctx.spec_res_ids(k2).to_set()
                                        == o.spec_res_ids(k2).to_set() + kind_ids(kinds, s, k2) by {
                                        if k2 == k {
                                            assert(kind_ids(kinds, s, k2) =~= set![id]);
                                            lemma_push_to_set(o.spec_res_ids(k), id);
                                            assert(ctx.spec_res_ids(k2).to_set() =~= o.spec_res_ids(k2).to_set()
                                                + kind_ids(kinds, s, k2));
                                        } else {
                                            assert(kind_ids(kinds, s, k2) =~= Set::empty());
                                            assert(ctx.spec_res_ids(k2).to_set() =~= o.spec_res_ids(k2).to_set()
                                                + kind_ids(kinds, s, k2));
                                        }
                                    }
                                }
                            },
                            _ => {},
                        }
                    },
                    _ => {},
                }
            }
        },
        ValueKindInner::PtrValue(p) => {
            match &p.pointee {
                Some(b) => {
                    record_value_res(ctx, target, b);
                },
                None => {},
            }
        },
        ValueKindInner::GroupValue(g) => {
            let mut i: usize = 0;
            while i < g.inner.len()
                invariant
                    target.wf(),
                    v.inner == ValueKindInner::GroupValue(*g),
                    kinds == target.res_kinds@,
                    i <= g.inner@.len(),
                    forall|j: int|
                        0 <= j < g.inner@.len() ==> res_kinds_known(target.tys@, strs_view(kinds), #[trigger] g.inner@[j]),
                    res_recorded(o, *ctx, kinds, out_res_in_values(target.tys@, g.inner@.take(i as int))),
                decreases g.inner.len() - i,
            {
                let ghost before = *ctx;
                proof {
                    assert(decreases_to!(*v => g.inner@[i as int])) by {
                        assert(decreases_to!(*v => v.inner));
                        assert(v.inner->GroupValue_0 == *g);
                        assert(decreases_to!(v.inner => v.inner->GroupValue_0));
                        assert(decreases_to!(*g => g.inner));
                        assert(decreases_to!(g.inner => g.inner@));
                        assert(decreases_to!(g.inner@ => g.inner@[i as int]));
                    }
                }
                record_value_res(ctx, target, &g.inner[i]);
                proof {
                    let t = g.inner@.take(i as int + 1);
                    assert(t.drop_last() =~= g.inner@.take(i as int));
                    assert(t.last() == g.inner@[i as int]);
                    lemma_recorded_trans(
                        o,
                        before,
                        *ctx,
                        kinds,
                        out_res_in_values(target.tys@, g.inner@.take(i as int)),
                        out_res_in_value(target.tys@, g.inner@[i as int]),
                    );
                }
                i = i + 1;
            }
            proof {
                assert(g.inner@.take(g.inner@.len() as int) =~= g.inner@);
            }
        },
        ValueKindInner::UnionValue(u) => {
            record_value_res(ctx, target, &u.option);
        },
        _ => {},
    }
}

/// Records in `ctx` the resources that the calls before position `to`
/// produce (see `out_res_in_calls`), call by call, in the arguments and
/// then the result, each value in pre-order.
pub fn restore_res_ctx(ctx: &mut Context, target: &Target, calls: &Vec<ParsedCall>, to: usize)
    requires
        old(ctx).wf(),
        target.wf(),
        to <= calls@.len(),
        forall|c: int|
            0 <= c < to ==> call_res_kinds_known(target.tys@, strs_view(target.res_kinds@), #[trigger] calls@[c]),
    ensures
        res_recorded(*old(ctx), *final(ctx), target.res_kinds@, out_res_in_calls(target.tys@, calls@.take(to as int))),
{
    let ghost o = *ctx;
    let ghost kinds = target.res_kinds@;
    let ghost tys = target.tys@;
    proof {
        lemma_recorded_none(o, kinds);
        assert(calls@.take(0) =~= Seq::<ParsedCall>::empty());
    }
    let mut c: usize = 0;
    while c < to
        invariant
            target.wf(),
            kinds == target.res_kinds@,
            tys == target.tys@,
            c <= to <= calls@.len(),
            forall|k: int| 0 <= k < to ==> call_res_kinds_known(tys, strs_view(kinds), #[trigger] calls@[k]),
            res_recorded(o, *ctx, kinds, out_res_in_calls(tys, calls@.take(c as int))),
        decreases to - c,
    {
        let call = &calls[c];
        let ghost start = *ctx;
        proof {
            lemma_recorded_none(start, kinds);
            assert(call.args@.take(0) =~= Seq::<Value>::empty());
        }
        let mut j: usize = 0;
        while j < call.args.len()
            invariant
                target.wf(),
                kinds == target.res_kinds@,
                tys == target.tys@,
                j <= call.args@.len(),
                call_res_kinds_known(tys, strs_view(kinds), *call),
                res_recorded(start, *ctx, kinds, out_res_in_values(tys, call.args@.take(j as int))),
            decreases call.args.len() - j,
        {
            let ghost before = *ctx;
            record_value_res(ctx, target, &call.args[j]);
            proof {
                let t = call.args@.take(j as int + 1);
                assert(t.drop_last() =~= call.args@.take(j as int));
                assert(t.last() == call.args@[j as int]);
                lemma_recorded_trans(
                    start,
                    before,
                    *ctx,
                    kinds,
                    out_res_in_values(tys, call.args@.take(j as int)),
                    out_res_in_value(tys, call.args@[j as int]),
                );
            }
            j = j + 1;
        }
        proof {
            assert(call.args@.take(call.args@.len() as int) =~= call.args@);
        }
        let ghost mid = *ctx;
        match &call.ret {
            Some(r) => {
                record_value_res(ctx, target, r);
                proof {
                    lemma_recorded_trans(start, mid, *ctx, kinds, out_res_in_values(tys, call.args@), out_res_in_value(tys, *r));
                }
            },
            None => {
                proof {
                    assert(out_res_in_values(tys, call.args@) + Set::empty() =~= out_res_in_values(tys, call.args@));
                }
            },
        }
        proof {
            assert(out_res_in_call(tys, *call) == out_res_in_values(tys, call.args@) + match call.ret {
                Some(r) => out_res_in_value(tys, r),
                None => Set::empty(),
            });
            let t = calls@.take(c as int + 1);
            assert(t.drop_last() =~= calls@.take(c as int));
            assert(t.last() == calls@[c as int]);
            lemma_recorded_trans(o, start, *ctx, kinds, out_res_in_calls(tys, calls@.take(c as int)), out_res_in_call(tys, *call));
        }
        c = c + 1;
    }
}

} // verus!

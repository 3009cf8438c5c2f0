//! Sequence level helpers: moving the resource ids of calls out of the way
//! of the ids already in use.
use crate::parse::ParsedCall;
use crate::value::{ResValueId, ResValueKind, Value, ValueKindInner};
use vstd::prelude::*;

verus! {

/// Every resource id in the tree of `v` is at most `bound`.
pub open spec fn ids_at_most(v: Value, bound: int) -> bool
    decreases v,
{
    match v.inner {
        ValueKindInner::PtrValue(p) => match p.pointee {
            Some(b) => ids_at_most(*b, bound),
            None => true,
        },
        ValueKindInner::GroupValue(g) => forall|i: int|
            0 <= i < g.inner@.len() ==> ids_at_most(#[trigger] g.inner@[i], bound),
        ValueKindInner::UnionValue(u) => ids_at_most(*u.option, bound),
        ValueKindInner::ResValue(r) => match r.kind {
            ResValueKind::Own(id) => id <= bound,
            ResValueKind::Ref(id) => id <= bound,
            ResValueKind::Null => true,
        },
        _ => true,
    }
}

/// A resource kind with its id moved up by `off`.
pub open spec fn kind_shifted(k: ResValueKind, off: int) -> ResValueKind {
    match k {
        ResValueKind::Own(id) => ResValueKind::Own((id + off) as usize),
        ResValueKind::Ref(id) => ResValueKind::Ref((id + off) as usize),
        ResValueKind::Null => ResValueKind::Null,
    }
}

/// `n` is `o` with every resource id moved up by `off`, all else the same.
pub open spec fn value_shifted(o: Value, n: Value, off: int) -> bool
    decreases o,
{
    &&& n.comm == o.comm
    &&& match o.inner {
        ValueKindInner::PtrValue(op) => n.inner matches ValueKindInner::PtrValue(np) && np.comm == op.comm
            && np.addr == op.addr && match op.pointee {
            Some(ob) => np.pointee matches Some(nb) && value_shifted(*ob, *nb, off),
            None => np.pointee is None,
        },
        ValueKindInner::GroupValue(og) => n.inner matches ValueKindInner::GroupValue(ng) && ng.comm == og.comm
            && ng.inner@.len() == og.inner@.len() && forall|i: int|
            0 <= i < og.inner@.len() ==> value_shifted(#[trigger] og.inner@[i], ng.inner@[i], off),
        ValueKindInner::UnionValue(ou) => n.inner matches ValueKindInner::UnionValue(nu) && nu.comm == ou.comm
            && nu.index == ou.index && value_shifted(*ou.option, *nu.option, off),
        ValueKindInner::ResValue(orr) => n.inner matches ValueKindInner::ResValue(nr) && nr.comm == orr.comm && nr.val
            == orr.val && nr.op_div == orr.op_div && nr.op_add == orr.op_add && nr.kind == kind_shifted(orr.kind, off),
        _ => n.inner == o.inner,
    }
}

/// The ids of a table of resources moved up by `off`.
pub open spec fn table_shifted(o: Seq<(String, Vec<ResValueId>)>, n: Seq<(String, Vec<ResValueId>)>, off: int) -> bool {
    &&& n.len() == o.len()
    &&& forall|i: int|
        0 <= i < o.len() ==> (#[trigger] n[i]).0 == o[i].0 && n[i].1@.len() == o[i].1@.len() && forall|j: int|
            0 <= j < o[i].1@.len() ==> n[i].1@[j] == o[i].1@[j] + off
}

/// Every id of a table is at most `bound`.
pub open spec fn table_ids_at_most(t: Seq<(String, Vec<ResValueId>)>, bound: int) -> bool {
    forall|i: int, j: int| 0 <= i < t.len() && 0 <= j < t[i].1@.len() ==> #[trigger] t[i].1@[j] <= bound
}

/// The resource ids of a call are at most `bound`, in its values and its
/// tables.
pub open spec fn call_ids_at_most(c: ParsedCall, bound: int) -> bool {
    &&& forall|j: int| 0 <= j < c.args@.len() ==> ids_at_most(#[trigger] c.args@[j], bound)
    &&& (c.ret matches Some(r) ==> ids_at_most(r, bound))
    &&& table_ids_at_most(c.generated_res@, bound)
    &&& table_ids_at_most(c.used_res@, bound)
}

/// `n` is the call `o` with every resource id moved up by `off`.
pub open spec fn call_shifted(o: ParsedCall, n: ParsedCall, off: int) -> bool {
    &&& n.sid == o.sid
    &&& n.args@.len() == o.args@.len()
    &&& forall|j: int| 0 <= j < o.args@.len() ==> value_shifted(#[trigger] o.args@[j], n.args@[j], off)
    &&& match o.ret {
        Some(r) => n.ret matches Some(nr) && value_shifted(r, nr, off),
        None => n.ret is None,
    }
    &&& table_shifted(o.generated_res@, n.generated_res@, off)
    &&& table_shifted(o.used_res@, n.used_res@, off)
}

fn shift_value(v: &mut Value, off: usize)
    requires
        ids_at_most(*old(v), usize::MAX - off),
    ensures
        value_shifted(*old(v), *final(v), off as int),
    decreases *old(v),
{
    let ghost ov = *v;
    match &mut v.inner {
        ValueKindInner::PtrValue(p) => {
            match &mut p.pointee {
                Some(b) => {
                    proof {
                        assert(decreases_to!(ov => **b));
                    }
                    shift_value(&mut **b, off);
                },
                None => {},
            }
        },
        ValueKindInner::GroupValue(g) => {
            let ghost og = g.inner@;
            let mut i: usize = 0;
            while i < g.inner.len()
                invariant
                    ov == *old(v),
                    ov.inner is GroupValue,
                    og == ov.inner->GroupValue_0.inner@,
                    g.comm == ov.inner->GroupValue_0.comm,
                    g.inner@.len() == og.len(),
                    i <= og.len(),
                    forall|j: int| 0 <= j < og.len() ==> ids_at_most(#[trigger] og[j], usize::MAX - off),
                    forall|j: int| i <= j < og.len() ==> #[trigger] g.inner@[j] == og[j],
                    forall|j: int| 0 <= j < i ==> value_shifted(#[trigger] og[j], g.inner@[j], off as int),
                decreases og.len() - i,
            {
                let mut e = Value::from_int(crate::value::IntegerValue::new(0, crate::ty::Dir::In, 0));
                g.inner.set_and_swap(i, &mut e);
                proof {
                    assert(e == og[i as int]);
                    assert(decreases_to!(ov => og[i as int])) by {
                        assert(decreases_to!(ov => ov.inner));
                        assert(decreases_to!(ov.inner => ov.inner->GroupValue_0));
                        assert(decreases_to!(ov.inner->GroupValue_0 => ov.inner->GroupValue_0.inner));
                        assert(decreases_to!(ov.inner->GroupValue_0.inner => og));
                        assert(decreases_to!(og => og[i as int]));
                    }
                }
                shift_value(&mut e, off);
                g.inner.set_and_swap(i, &mut e);
                i = i + 1;
            }
        },
        ValueKindInner::UnionValue(u) => {
            proof {
                assert(decreases_to!(ov => *u.option));
            }
            shift_value(&mut *u.option, off);
        },
        ValueKindInner::ResValue(r) => {
            r.kind = match r.kind {
                ResValueKind::Own(id) => ResValueKind::Own(id + off),
                ResValueKind::Ref(id) => ResValueKind::Ref(id + off),
                ResValueKind::Null => ResValueKind::Null,
            };
        },
        _ => {},
    }
}

fn shift_table(t: &mut Vec<(String, Vec<ResValueId>)>, off: usize)
    requires
        table_ids_at_most(old(t)@, usize::MAX - off),
    ensures
        table_shifted(old(t)@, final(t)@, off as int),
{
    let ghost o = t@;
    let mut i: usize = 0;
    while i < t.len()
        invariant
            o == old(t)@,
            t@.len() == o.len(),
            i <= o.len(),
            table_ids_at_most(o, usize::MAX - off),
            forall|k: int| i <= k < o.len() ==> #[trigger] t@[k] == o[k],
            forall|k: int|
                0 <= k < i ==> (#[trigger] t@[k]).0 == o[k].0 && t@[k].1@.len() == o[k].1@.len() && forall|j: int|
                    0 <= j < o[k].1@.len() ==> t@[k].1@[j] == o[k].1@[j] + off,
        decreases o.len() - i,
    {
        let mut e = (String::new(), Vec::new());
        t.set_and_swap(i, &mut e);
        assert(e == o[i as int]);
        let mut j: usize = 0;
        while j < e.1.len()
            invariant
                e.0 == o[i as int].0,
                e.1@.len() == o[i as int].1@.len(),
                j <= e.1@.len(),
                i < o.len(),
                table_ids_at_most(o, usize::MAX - off),
                forall|m: int| j <= m < e.1@.len() ==> #[trigger] e.1@[m] == o[i as int].1@[m],
                forall|m: int| 0 <= m < j ==> #[trigger] e.1@[m] == o[i as int].1@[m] + off,
            decreases e.1@.len() - j,
        {
            let x = e.1[j];
            assert(o[i as int].1@[j as int] <= usize::MAX - off);
            e.1.set(j, x + off);
            j = j + 1;
        }
        t.set_and_swap(i, &mut e);
        i = i + 1;
    }
}

/// Moves every resource id of `calls`, in their values and their tables,
/// up by `off`, so that they follow the `off` ids already in use.
pub fn mapping_res_id(off: usize, calls: &mut Vec<ParsedCall>)
    requires
        forall|c: int| 0 <= c < old(calls)@.len() ==> call_ids_at_most(#[trigger] old(calls)@[c], usize::MAX - off),
    ensures
        final(calls)@.len() == old(calls)@.len(),
        forall|c: int| 0 <= c < old(calls)@.len() ==> call_shifted(#[trigger] old(calls)@[c], final(calls)@[c], off as int),
{
    let ghost oc = calls@;
    let mut c: usize = 0;
    while c < calls.len()
        invariant
            oc == old(calls)@,
            calls@.len() == oc.len(),
            c <= oc.len(),
            forall|k: int| 0 <= k < oc.len() ==> call_ids_at_most(#[trigger] oc[k], usize::MAX - off),
            forall|k: int| c <= k < oc.len() ==> #[trigger] calls@[k] == oc[k],
            forall|k: int| 0 <= k < c ==> call_shifted(#[trigger] oc[k], calls@[k], off as int),
        decreases oc.len() - c,
    {
        let mut call = ParsedCall { sid: 0, args: Vec::new(), ret: None, generated_res: Vec::new(), used_res: Vec::new() };
        calls.set_and_swap(c, &mut call);
        let ghost o = call;
        assert(o == oc[c as int]);
        let mut j: usize = 0;
        while j < call.args.len()
            invariant
                call_ids_at_most(o, usize::MAX - off),
                call.sid == o.sid,
                call.ret == o.ret,
                call.generated_res == o.generated_res,
                call.used_res == o.used_res,
                call.args@.len() == o.args@.len(),
                j <= o.args@.len(),
                forall|k: int| j <= k < o.args@.len() ==> #[trigger] call.args@[k] == o.args@[k],
                forall|k: int| 0 <= k < j ==> value_shifted(#[trigger] o.args@[k], call.args@[k], off as int),
            decreases o.args@.len() - j,
        {
            let mut e = Value::from_int(crate::value::IntegerValue::new(0, crate::ty::Dir::In, 0));
            call.args.set_and_swap(j, &mut e);
            assert(e == o.args@[j as int]);
            shift_value(&mut e, off);
            call.args.set_and_swap(j, &mut e);
            j = j + 1;
        }
        match &mut call.ret {
            Some(r) => shift_value(r, off),
            None => {},
        }
        shift_table(&mut call.generated_res, off);
        shift_table(&mut call.used_res, off);
        calls.set_and_swap(c, &mut call);
        c = c + 1;
    }
}

} // verus!

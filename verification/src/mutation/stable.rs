//! Fixing up is stable: a program that was fixed up comes out of a second
//! fix-up as it went in.
use crate::mutation::fixup::{
    call_fix_ok, calls_state, fix_ok, fixed_up, fixup_mem, fixup_start, group_state, lemma_fixup_again, pointee_alloc,
    values_state, FixState,
};
use crate::mutation::res_use::{call_res, res_in_value, res_in_values, table_pairs};
use crate::parse::ParsedCall;
use crate::target::Target;
use crate::ty::Type;
use crate::value::{Value, ValueKindInner};
use vstd::prelude::*;

verus! {

/// `b` is the value `a` again, member by member.
pub open spec fn same_value(a: Value, b: Value) -> bool
    decreases a,
{
    &&& b.comm == a.comm
    &&& match a.inner {
        ValueKindInner::PtrValue(pa) => b.inner matches ValueKindInner::PtrValue(pb) && pb.comm == pa.comm && pb.addr
            == pa.addr && match pa.pointee {
            Some(x) => pb.pointee matches Some(y) && same_value(*x, *y),
            None => pb.pointee is None,
        },
        ValueKindInner::GroupValue(ga) => b.inner matches ValueKindInner::GroupValue(gb) && gb.comm == ga.comm
            && gb.inner@.len() == ga.inner@.len() && forall|i: int|
            0 <= i < ga.inner@.len() ==> same_value(#[trigger] ga.inner@[i], gb.inner@[i]),
        ValueKindInner::UnionValue(ua) => b.inner matches ValueKindInner::UnionValue(ub) && ub.comm == ua.comm
            && ub.index == ua.index && same_value(*ua.option, *ub.option),
        _ => b.inner == a.inner,
    }
}

/// `b` has the syscall, the arguments and the result of `a`, value for
/// value.
pub open spec fn same_call_values(a: ParsedCall, b: ParsedCall) -> bool {
    &&& b.sid == a.sid
    &&& b.args@.len() == a.args@.len()
    &&& forall|j: int| 0 <= j < a.args@.len() ==> same_value(#[trigger] a.args@[j], b.args@[j])
    &&& match a.ret {
        Some(r) => b.ret matches Some(s) && same_value(r, s),
        None => b.ret is None,
    }
}

/// `b` is the call `a` again: the same syscall, arguments and result, and
/// the same resources recorded as produced and as used.
pub open spec fn same_call(a: ParsedCall, b: ParsedCall) -> bool {
    &&& same_call_values(a, b)
    &&& table_pairs(b.generated_res@) == table_pairs(a.generated_res@)
    &&& table_pairs(b.used_res@) == table_pairs(a.used_res@)
}

proof fn lemma_fix_unique(tys: Seq<Type>, mem: u64, o: Value, a: Value, b: Value, st: FixState)
    requires
        fix_ok(tys, mem, o, a, st),
        fix_ok(tys, mem, o, b, st),
    ensures
        same_value(a, b),
    decreases o,
{
    match o.inner {
        ValueKindInner::PtrValue(op) => {
            if let Some(ob) = op.pointee {
                let al = pointee_alloc(tys, mem, *ob, st);
                let x = a.inner->PtrValue_0.pointee->0;
                let y = b.inner->PtrValue_0.pointee->0;
                lemma_fix_unique(tys, mem, *ob, *x, *y, (al.0, al.1, st.2));
            }
        },
        ValueKindInner::GroupValue(og) => {
            let ga = a.inner->GroupValue_0;
            let gb = b.inner->GroupValue_0;
            assert forall|i: int| 0 <= i < ga.inner@.len() implies same_value(#[trigger] ga.inner@[i], gb.inner@[i]) by {
                lemma_fix_unique(tys, mem, og.inner@[i], ga.inner@[i], gb.inner@[i], group_state(tys, mem, o, i as nat, st));
            }
        },
        ValueKindInner::UnionValue(ou) => {
            lemma_fix_unique(tys, mem, *ou.option, *a.inner->UnionValue_0.option, *b.inner->UnionValue_0.option, st);
        },
        _ => {},
    }
}

proof fn lemma_call_unique(target: Target, o: ParsedCall, a: ParsedCall, b: ParsedCall, st: FixState)
    requires
        call_fix_ok(target, o, a, st),
        call_fix_ok(target, o, b, st),
    ensures
        same_call_values(a, b),
{
    reveal(call_fix_ok);
    let tys = target.tys@;
    let mem = fixup_mem(target);
    assert forall|j: int| 0 <= j < a.args@.len() implies same_value(#[trigger] a.args@[j], b.args@[j]) by {
        lemma_fix_unique(tys, mem, o.args@[j], a.args@[j], b.args@[j], values_state(tys, mem, o.args@, j as nat, st));
    }
    if let Some(r) = o.ret {
        lemma_fix_unique(tys, mem, r, a.ret->0, b.ret->0, values_state(tys, mem, o.args@, o.args@.len(), st));
    }
}

proof fn lemma_same_res(tys: Seq<Type>, a: Value, b: Value, own: bool)
    requires
        same_value(a, b),
    ensures
        res_in_value(tys, a, own) == res_in_value(tys, b, own),
    decreases a, 1nat,
{
    match a.inner {
        ValueKindInner::PtrValue(pa) => {
            if let Some(x) = pa.pointee {
                lemma_same_res(tys, *x, *b.inner->PtrValue_0.pointee->0, own);
            }
        },
        ValueKindInner::GroupValue(ga) => {
            lemma_same_res_values(tys, ga.inner@, b.inner->GroupValue_0.inner@, own);
        },
        ValueKindInner::UnionValue(ua) => {
            lemma_same_res(tys, *ua.option, *b.inner->UnionValue_0.option, own);
        },
        _ => {},
    }
}

proof fn lemma_same_res_values(tys: Seq<Type>, a: Seq<Value>, b: Seq<Value>, own: bool)
    requires
        b.len() == a.len(),
        forall|i: int| 0 <= i < a.len() ==> same_value(#[trigger] a[i], b[i]),
    ensures
        res_in_values(tys, a, own) == res_in_values(tys, b, own),
    decreases a, 0nat,
{
    if a.len() > 0 {
        assert(decreases_to!(a => a.drop_last()));
        lemma_same_res_values(tys, a.drop_last(), b.drop_last(), own);
        lemma_same_res(tys, a.last(), b.last(), own);
    }
}

/// Fixing up a program that was fixed up changes nothing: every call keeps
/// its syscall, its arguments and result value for value, and the
/// resources it records as produced and as used. `n` is the program `o`
/// fixed up, `n2` is `n` fixed up.
pub proof fn lemma_fixup_twice(target: Target, o: Seq<ParsedCall>, n: Seq<ParsedCall>, n2: Seq<ParsedCall>)
    requires
        fixed_up(target, o, n),
        fixed_up(target, n, n2),
    ensures
        n2.len() == n.len(),
        forall|c: int| 0 <= c < n.len() ==> same_call(#[trigger] n[c], n2[c]),
{
    lemma_fixup_again(target, o, n);
    assert forall|c: int| 0 <= c < n.len() implies same_call(#[trigger] n[c], n2[c]) by {
        let st = calls_state(target, n, c as nat, fixup_start(target));
        lemma_call_unique(target, n[c], n[c], n2[c], st);
        let tys = target.tys@;
        let a = n[c];
        let b = n2[c];
        lemma_same_res_values(tys, a.args@, b.args@, true);
        lemma_same_res_values(tys, a.args@, b.args@, false);
        if let Some(r) = a.ret {
            lemma_same_res(tys, r, b.ret->0, true);
            lemma_same_res(tys, r, b.ret->0, false);
        }
        assert(call_res(tys, a, true) == call_res(tys, b, true));
        assert(call_res(tys, a, false) == call_res(tys, b, false));
    }
}

} // verus!

//! Making a program's values consistent after it was assembled: pointers
//! with a pointee get fresh addresses in the data area, and the resources
//! calls produce are numbered anew in order of appearance.
use crate::allocator::{alloc_align, alloc_result, alloc_size, round_up, Allocator, ADDR_SPACE_LIMIT, ALLOC_GRANULE, MAX_MEM_SIZE};
use crate::mutation::res_use::{call_res_tables, res_tables_ok};
use crate::parse::ParsedCall;
use crate::size::{lookup_ty, sum_sizes, ty_with_id, value_size, value_tys_known};
use crate::target::{find_ty, has_ty, Target};
use crate::ty::Type;
use crate::value::{ResValueId, ResValueKind, Value, ValueKindInner};
use crate::hashed::{usize_map_get, usize_map_insert, usize_map_len, usize_map_new, usize_pairs};
use ahash::AHashMap;
use vstd::prelude::*;

verus! {

broadcast use vstd::std_specs::hash::group_hash_axioms;

/// Alignment a pointee is placed with: its type's, or 1.
pub open spec fn pointee_align(tys: Seq<Type>, v: Value) -> u64 {
    let a = ty_with_id(tys, v.comm.ty_id).spec_comm().align;
    if a == 0 {
        1
    } else {
        a
    }
}

/// Every pointee in the tree of `v` fits, with room to spare, in a data
/// area of `mem` bytes.
pub open spec fn pointees_fit(tys: Seq<Type>, mem: u64, v: Value) -> bool
    decreases v,
{
    match v.inner {
        ValueKindInner::PtrValue(p) => match p.pointee {
            Some(b) => {
                &&& value_size(tys, *b) <= u64::MAX
                &&& alloc_size(value_size(tys, *b) as u64, pointee_align(tys, *b)) < mem
                &&& mem + alloc_align(pointee_align(tys, *b)) <= ADDR_SPACE_LIMIT
                &&& pointees_fit(tys, mem, *b)
            },
            None => true,
        },
        ValueKindInner::GroupValue(g) => forall|i: int|
            0 <= i < g.inner@.len() ==> pointees_fit(tys, mem, #[trigger] g.inner@[i]),
        ValueKindInner::UnionValue(u) => pointees_fit(tys, mem, *u.option),
        _ => true,
    }
}

/// A resource after renumbering: a produced one takes its new number, a
/// used one keeps its number or takes the new number of the one it uses.
pub open spec fn res_renumbered(o: ResValueKind, n: ResValueKind, m: Map<ResValueId, ResValueId>) -> bool {
    match o {
        ResValueKind::Own(id) => m.contains_key(id) && n == ResValueKind::Own(m[id]),
        ResValueKind::Ref(id) => n == ResValueKind::Ref(id) || (m.contains_key(id) && n == ResValueKind::Ref(
            m[id],
        )),
        ResValueKind::Null => n == ResValueKind::Null,
    }
}

/// `n` is `o` fixed up: the same tree, pointers with a pointee placed at
/// an address aligned for it and inside a data area of `mem` bytes,
/// resources renumbered by `m`, everything else unchanged.
pub open spec fn fixed(tys: Seq<Type>, mem: u64, o: Value, n: Value, m: Map<ResValueId, ResValueId>) -> bool
    decreases o,
{
    &&& n.comm == o.comm
    &&& match o.inner {
        ValueKindInner::PtrValue(op) => n.inner matches ValueKindInner::PtrValue(np) && np.comm == op.comm
            && match op.pointee {
            Some(ob) => np.pointee matches Some(nb) && fixed(tys, mem, *ob, *nb, m) && (np.addr as int) % alloc_align(
                pointee_align(tys, *ob),
            ) == 0 && np.addr + alloc_size(value_size(tys, *ob) as u64, pointee_align(tys, *ob)) <= mem,
            None => np.pointee is None && np.addr == op.addr,
        },
        ValueKindInner::GroupValue(og) => n.inner matches ValueKindInner::GroupValue(ng) && ng.comm == og.comm
            && ng.inner@.len() == og.inner@.len() && forall|i: int|
            0 <= i < og.inner@.len() ==> fixed(tys, mem, #[trigger] og.inner@[i], ng.inner@[i], m),
        ValueKindInner::UnionValue(ou) => n.inner matches ValueKindInner::UnionValue(nu) && nu.comm == ou.comm
            && nu.index == ou.index && fixed(tys, mem, *ou.option, *nu.option, m),
        ValueKindInner::ResValue(orr) => n.inner matches ValueKindInner::ResValue(nr) && nr.comm == orr.comm && nr.val
            == orr.val && nr.op_div == orr.op_div && nr.op_add == orr.op_add && res_renumbered(orr.kind, nr.kind, m),
        _ => n.inner == o.inner,
    }
}

/// Renumbering so far: the numbers given are distinct and below the
/// number of resources numbered.
pub open spec fn numbering_ok(m: Map<ResValueId, ResValueId>) -> bool {
    &&& m.dom().finite()
    &&& forall|k: ResValueId| #[trigger] m.contains_key(k) ==> m[k] < m.len()
    &&& forall|a: ResValueId, b: ResValueId|
        #[trigger] m.contains_key(a) && #[trigger] m.contains_key(b) && a != b ==> m[a] != m[b]
}

/// `m2` keeps every number `m1` gave.
pub open spec fn extends(m1: Map<ResValueId, ResValueId>, m2: Map<ResValueId, ResValueId>) -> bool {
    forall|k: ResValueId| #[trigger] m1.contains_key(k) ==> m2.contains_key(k) && m2[k] == m1[k]
}

/// What fixing up works through: the allocator's free blocks and block to
/// carve from, and the renumbering of resources made so far.
pub type FixState = (Seq<(u64, u64)>, int, Map<ResValueId, ResValueId>);

/// A resource renumbered with `m`, and the renumbering after it: a produced
/// resource seen before takes its number again, a new one takes the next
/// number; a used resource takes the number of the one it uses if that was
/// seen, else keeps its number.
pub open spec fn fix_res(k: ResValueKind, m: Map<ResValueId, ResValueId>) -> (ResValueKind, Map<ResValueId, ResValueId>) {
    match k {
        ResValueKind::Own(id) => if m.contains_key(id) {
            (ResValueKind::Own(m[id]), m)
        } else {
            (ResValueKind::Own(m.dom().len() as usize), m.insert(id, m.dom().len() as usize))
        },
        ResValueKind::Ref(id) => if m.contains_key(id) {
            (ResValueKind::Ref(m[id]), m)
        } else {
            (k, m)
        },
        ResValueKind::Null => (k, m),
    }
}

/// The state a pointee of `b` is placed from: the allocation of its size
/// and alignment carved from the blocks of `st`.
pub open spec fn pointee_alloc(tys: Seq<Type>, mem: u64, b: Value, st: FixState) -> (Seq<(u64, u64)>, int, u64) {
    alloc_result(
        st.0,
        st.1,
        mem,
        alloc_size(value_size(tys, b) as u64, pointee_align(tys, b)),
        alloc_align(pointee_align(tys, b)),
    )
}

/// The state after fixing up `o` from `st`, in pre-order.
pub open spec fn fix_state(tys: Seq<Type>, mem: u64, o: Value, st: FixState) -> FixState
    decreases o, 1int, 0int,
{
    match o.inner {
        ValueKindInner::PtrValue(p) => match p.pointee {
            Some(b) => {
                let a = pointee_alloc(tys, mem, *b, st);
                fix_state(tys, mem, *b, (a.0, a.1, st.2))
            },
            None => st,
        },
        ValueKindInner::GroupValue(g) => group_state(tys, mem, o, g.inner@.len(), st),
        ValueKindInner::UnionValue(u) => fix_state(tys, mem, *u.option, st),
        ValueKindInner::ResValue(r) => (st.0, st.1, fix_res(r.kind, st.2).1),
        _ => st,
    }
}

/// The state after fixing up the first `k` members of the group `o`.
pub open spec fn group_state(tys: Seq<Type>, mem: u64, o: Value, k: nat, st: FixState) -> FixState
    decreases o, 0int, k,
{
    match o.inner {
        ValueKindInner::GroupValue(g) => if k == 0 || k > g.inner@.len() {
            st
        } else {
            fix_state(tys, mem, g.inner@[k - 1], group_state(tys, mem, o, (k - 1) as nat, st))
        },
        _ => st,
    }
}

/// `n` is `o` fixed up from the state `st`: each pointer with a pointee
/// has the address the allocator gives at that point, each resource is
/// renumbered as `fix_res` says, everything else is unchanged.
pub open spec fn fix_ok(tys: Seq<Type>, mem: u64, o: Value, n: Value, st: FixState) -> bool
    decreases o,
{
    &&& n.comm == o.comm
    &&& match o.inner {
        ValueKindInner::PtrValue(op) => n.inner matches ValueKindInner::PtrValue(np) && np.comm == op.comm
            && match op.pointee {
            Some(ob) => {
                let a = pointee_alloc(tys, mem, *ob, st);
                np.pointee matches Some(nb) && np.addr == a.2 && fix_ok(tys, mem, *ob, *nb, (a.0, a.1, st.2))
            },
            None => np.pointee is None && np.addr == op.addr,
        },
        ValueKindInner::GroupValue(og) => n.inner matches ValueKindInner::GroupValue(ng) && ng.comm == og.comm
            && ng.inner@.len() == og.inner@.len() && forall|i: int|
            0 <= i < og.inner@.len() ==> fix_ok(
                tys,
                mem,
                #[trigger] og.inner@[i],
                ng.inner@[i],
                group_state(tys, mem, o, i as nat, st),
            ),
        ValueKindInner::UnionValue(ou) => n.inner matches ValueKindInner::UnionValue(nu) && nu.comm == ou.comm
            && nu.index == ou.index && fix_ok(tys, mem, *ou.option, *nu.option, st),
        ValueKindInner::ResValue(orr) => n.inner matches ValueKindInner::ResValue(nr) && nr.comm == orr.comm && nr.val
            == orr.val && nr.op_div == orr.op_div && nr.op_add == orr.op_add && nr.kind == fix_res(orr.kind, st.2).0,
        _ => n.inner == o.inner,
    }
}

proof fn lemma_fixed_extends(
    tys: Seq<Type>,
    mem: u64,
    o: Value,
    n: Value,
    m1: Map<ResValueId, ResValueId>,
    m2: Map<ResValueId, ResValueId>,
)
    requires
        fixed(tys, mem, o, n, m1),
        extends(m1, m2),
    ensures
        fixed(tys, mem, o, n, m2),
    decreases o,
{
    match o.inner {
        ValueKindInner::PtrValue(op) => {
            if let Some(ob) = op.pointee {
                if let ValueKindInner::PtrValue(np) = n.inner {
                    if let Some(nb) = np.pointee {
                        lemma_fixed_extends(tys, mem, *ob, *nb, m1, m2);
                    }
                }
            }
        },
        ValueKindInner::GroupValue(og) => {
            if let ValueKindInner::GroupValue(ng) = n.inner {
                assert forall|i: int| 0 <= i < og.inner@.len() implies fixed(
                    tys,
                    mem,
                    #[trigger] og.inner@[i],
                    ng.inner@[i],
                    m2,
                ) by {
                    lemma_fixed_extends(tys, mem, og.inner@[i], ng.inner@[i], m1, m2);
                }
            }
        },
        ValueKindInner::UnionValue(ou) => {
            if let ValueKindInner::UnionValue(nu) = n.inner {
                lemma_fixed_extends(tys, mem, *ou.option, *nu.option, m1, m2);
            }
        },
        _ => {},
    }
}

/// Fixes up one value and everything below it, in pre-order.
#[verifier::rlimit(60)]
#[verifier::spinoff_prover]
fn fix_value(
    target: &Target,
    v: &mut Value,
    alloc: &mut Allocator,
    map: &mut AHashMap<ResValueId, ResValueId>,
)
    requires
        target.wf(),
        value_tys_known(target.tys@, *old(v)),
        old(alloc).wf(),
        pointees_fit(target.tys@, old(alloc).spec_size(), *old(v)),
        numbering_ok(usize_pairs(*old(map))),
    ensures
        final(alloc).wf(),
        final(alloc).spec_size() == old(alloc).spec_size(),
        numbering_ok(usize_pairs(*final(map))),
        extends(usize_pairs(*old(map)), usize_pairs(*final(map))),
        fixed(target.tys@, old(alloc).spec_size(), *old(v), *final(v), usize_pairs(*final(map))),
        (final(alloc).spec_blocks(), final(alloc).spec_last_max(), usize_pairs(*final(map))) == fix_state(
            target.tys@,
            old(alloc).spec_size(),
            *old(v),
            (old(alloc).spec_blocks(), old(alloc).spec_last_max(), usize_pairs(*old(map))),
        ),
        fix_ok(
            target.tys@,
            old(alloc).spec_size(),
            *old(v),
            *final(v),
            (old(alloc).spec_blocks(), old(alloc).spec_last_max(), usize_pairs(*old(map))),
        ),
    decreases *old(v),
{
    let ghost ov = *v;
    let ghost mem = alloc.spec_size();
    let ghost st0: FixState = (alloc.spec_blocks(), alloc.spec_last_max(), usize_pairs(*map));
    match &mut v.inner {
        ValueKindInner::PtrValue(p) => {
            match &mut p.pointee {
                Some(b) => {
                    proof {
                        assert(value_tys_known(target.tys@, **b));
                        assert(has_ty(target.tys@, b.comm.ty_id));
                    }
                    let sz = b.size(target);
                    let ty = lookup_ty(target, b.comm.ty_id);
                    let a = ty.align();
                    let al = if a == 0 {
                        1
                    } else {
                        a
                    };
                    p.addr = alloc.allocate(sz, al);
                    proof {
                        assert(decreases_to!(ov => **b));
                    }
                    fix_value(target, &mut **b, alloc, map);
                },
                None => {},
            }
        },
        ValueKindInner::GroupValue(g) => {
            let ghost og = g.inner@;
            let mut i: usize = 0;
            while i < g.inner.len()
                invariant
                    target.wf(),
                    ov == *old(v),
                    ov.inner is GroupValue,
                    og == ov.inner->GroupValue_0.inner@,
                    g.comm == ov.inner->GroupValue_0.comm,
                    g.inner@.len() == og.len(),
                    i <= og.len(),
                    alloc.wf(),
                    alloc.spec_size() == mem,
                    numbering_ok(usize_pairs(*map)),
                    extends(usize_pairs(*old(map)), usize_pairs(*map)),
                    forall|j: int| 0 <= j < og.len() ==> value_tys_known(target.tys@, #[trigger] og[j]),
                    forall|j: int| 0 <= j < og.len() ==> pointees_fit(target.tys@, mem, #[trigger] og[j]),
                    forall|j: int| i <= j < og.len() ==> #[trigger] g.inner@[j] == og[j],
                    forall|j: int| 0 <= j < i ==> fixed(target.tys@, mem, #[trigger] og[j], g.inner@[j], usize_pairs(*map)),
                    (alloc.spec_blocks(), alloc.spec_last_max(), usize_pairs(*map)) == group_state(
                        target.tys@,
                        mem,
                        ov,
                        i as nat,
                        st0,
                    ),
                    forall|j: int|
                        0 <= j < i ==> fix_ok(
                            target.tys@,
                            mem,
                            #[trigger] og[j],
                            g.inner@[j],
                            group_state(target.tys@, mem, ov, j as nat, st0),
                        ),
                decreases og.len() - i,
            {
                let mut e = Value::from_int(crate::value::IntegerValue::new(0, crate::ty::Dir::In, 0));
                g.inner.set_and_swap(i, &mut e);
                let ghost m_before = usize_pairs(*map);
                proof {
                    assert(e == og[i as int]);
                    assert(decreases_to!(ov => og[i as int])) by {
                        assert(decreases_to!(ov => ov.inner));
                        assert(decreases_to!(ov.inner => ov.inner->GroupValue_0));
                        assert(decreases_to!(ov.inner->GroupValue_0 => ov.inner->GroupValue_0.inner));
                        assert(decreases_to!(ov.inner->GroupValue_0.inner => og));
                        assert(decreases_to!(og => og[i as int]));
                    }
                }
                fix_value(target, &mut e, alloc, map);
                g.inner.set_and_swap(i, &mut e);
                proof {
                    assert(group_state(target.tys@, mem, ov, (i + 1) as nat, st0) == fix_state(
                        target.tys@,
                        mem,
                        og[i as int],
                        group_state(target.tys@, mem, ov, i as nat, st0),
                    ));
                    assert forall|j: int| 0 <= j < i + 1 implies fixed(
                        target.tys@,
                        mem,
                        #[trigger] og[j],
                        g.inner@[j],
                        usize_pairs(*map),
                    ) by {
                        if j < i {
                            lemma_fixed_extends(target.tys@, mem, og[j], g.inner@[j], m_before, usize_pairs(*map));
                        }
                    }
                }
                i = i + 1;
            }
        },
        ValueKindInner::UnionValue(u) => {
            proof {
                assert(decreases_to!(ov => *u.option));
            }
            fix_value(target, &mut *u.option, alloc, map);
        },
        ValueKindInner::ResValue(r) => {
            match r.kind {
                ResValueKind::Own(id) => {
                    let nid = match usize_map_get(map, id) {
                        Some(x) => x,
                        None => {
                            let x = usize_map_len(map);
                            usize_map_insert(map, id, x);
                            x
                        },
                    };
                    r.kind = ResValueKind::Own(nid);
                },
                ResValueKind::Ref(id) => {
                    match usize_map_get(map, id) {
                        Some(x) => {
                            r.kind = ResValueKind::Ref(x);
                        },
                        None => {},
                    }
                },
                ResValueKind::Null => {},
            }
        },
        _ => {},
    }
}

/// Size of the data area pointers are placed in: the target's memory,
/// rounded up to the allocation granule.
pub open spec fn fixup_mem(target: Target) -> u64 {
    round_up(target.page_sz * target.page_num, ALLOC_GRANULE as int) as u64
}

/// The values of a call, arguments first and then the result.
pub open spec fn call_values_ok(target: Target, c: ParsedCall) -> bool {
    &&& forall|j: int|
        0 <= j < c.args@.len() ==> value_tys_known(target.tys@, #[trigger] c.args@[j]) && pointees_fit(
            target.tys@,
            fixup_mem(target),
            c.args@[j],
        )
    &&& (c.ret matches Some(r) ==> value_tys_known(target.tys@, r) && pointees_fit(target.tys@, fixup_mem(target), r))
}

/// `n` is the call `o` fixed up with the renumbering `m`.
pub open spec fn call_fixed(target: Target, o: ParsedCall, n: ParsedCall, m: Map<ResValueId, ResValueId>) -> bool {
    &&& n.sid == o.sid
    &&& n.args@.len() == o.args@.len()
    &&& forall|j: int|
        0 <= j < o.args@.len() ==> fixed(target.tys@, fixup_mem(target), #[trigger] o.args@[j], n.args@[j], m)
    &&& match o.ret {
        Some(r) => n.ret matches Some(nr) && fixed(target.tys@, fixup_mem(target), r, nr, m),
        None => n.ret is None,
    }
}

/// The state after fixing up the first `k` values of `vs`, one after the other.
pub open spec fn values_state(tys: Seq<Type>, mem: u64, vs: Seq<Value>, k: nat, st: FixState) -> FixState
    decreases k,
{
    if k == 0 || k > vs.len() {
        st
    } else {
        fix_state(tys, mem, vs[k - 1], values_state(tys, mem, vs, (k - 1) as nat, st))
    }
}

/// The state after fixing up a call: its arguments, then its result.
pub open spec fn call_state(target: Target, c: ParsedCall, st: FixState) -> FixState {
    let s = values_state(target.tys@, fixup_mem(target), c.args@, c.args@.len(), st);
    match c.ret {
        Some(r) => fix_state(target.tys@, fixup_mem(target), r, s),
        None => s,
    }
}

/// The state after fixing up the first `k` calls of `cs`.
pub open spec fn calls_state(target: Target, cs: Seq<ParsedCall>, k: nat, st: FixState) -> FixState
    decreases k,
{
    if k == 0 || k > cs.len() {
        st
    } else {
        call_state(target, cs[k - 1], calls_state(target, cs, (k - 1) as nat, st))
    }
}

/// The state fixing up a program starts from: all of the data area free,
/// no resource numbered yet.
pub open spec fn fixup_start(target: Target) -> FixState {
    (seq![(0u64, fixup_mem(target))], 0, Map::empty())
}

/// `n` is the call `o` fixed up from the state `st` (see `fix_ok`).
#[verifier::opaque]
pub open spec fn call_fix_ok(target: Target, o: ParsedCall, n: ParsedCall, st: FixState) -> bool {
    let tys = target.tys@;
    let mem = fixup_mem(target);
    &&& n.sid == o.sid
    &&& n.args@.len() == o.args@.len()
    &&& forall|j: int|
        0 <= j < o.args@.len() ==> fix_ok(tys, mem, #[trigger] o.args@[j], n.args@[j], values_state(tys, mem, o.args@, j as nat, st))
    &&& match o.ret {
        Some(r) => n.ret matches Some(nr) && fix_ok(tys, mem, r, nr, values_state(tys, mem, o.args@, o.args@.len(), st)),
        None => n.ret is None,
    }
}

proof fn lemma_call_fixed_extends(
    target: Target,
    o: ParsedCall,
    n: ParsedCall,
    m1: Map<ResValueId, ResValueId>,
    m2: Map<ResValueId, ResValueId>,
)
    requires
        call_fixed(target, o, n, m1),
        extends(m1, m2),
    ensures
        call_fixed(target, o, n, m2),
{
    assert forall|j: int| 0 <= j < o.args@.len() implies fixed(
        target.tys@,
        fixup_mem(target),
        #[trigger] o.args@[j],
        n.args@[j],
        m2,
    ) by {
        lemma_fixed_extends(target.tys@, fixup_mem(target), o.args@[j], n.args@[j], m1, m2);
    }
    if let Some(r) = o.ret {
        if let Some(nr) = n.ret {
            lemma_fixed_extends(target.tys@, fixup_mem(target), r, nr, m1, m2);
        }
    }
}

/// `m2`, the renumbering a second fix-up has made, against `m`, the one the
/// first fix-up had made at the same point: every number `m` gave is
/// numbered as itself, nothing else is numbered, and `m` numbers from 0.
pub open spec fn renumbered_again(m: Map<ResValueId, ResValueId>, m2: Map<ResValueId, ResValueId>) -> bool {
    &&& m.dom().finite()
    &&& m2.dom().finite()
    &&& m2.dom().len() == m.dom().len()
    &&& forall|x: ResValueId| #[trigger] m2.contains_key(x) ==> m2[x] == x && exists|k: ResValueId|
        m.contains_key(k) && m[k] == x
    &&& forall|k: ResValueId| #[trigger] m.contains_key(k) ==> m2.contains_key(m[k]) && m[k] < m.dom().len()
}

proof fn lemma_fix_grows(tys: Seq<Type>, mem: u64, o: Value, st: FixState)
    requires
        st.2.dom().finite(),
    ensures
        fix_state(tys, mem, o, st).2.dom().finite(),
        st.2.dom().len() <= fix_state(tys, mem, o, st).2.dom().len(),
    decreases o, 1int, 0int,
{
    match o.inner {
        ValueKindInner::PtrValue(p) => {
            if let Some(b) = p.pointee {
                let a = pointee_alloc(tys, mem, *b, st);
                lemma_fix_grows(tys, mem, *b, (a.0, a.1, st.2));
            }
        },
        ValueKindInner::GroupValue(g) => {
            lemma_group_grows(tys, mem, o, g.inner@.len(), st);
        },
        ValueKindInner::UnionValue(u) => {
            lemma_fix_grows(tys, mem, *u.option, st);
        },
        _ => {},
    }
}

proof fn lemma_group_grows(tys: Seq<Type>, mem: u64, o: Value, k: nat, st: FixState)
    requires
        st.2.dom().finite(),
        o.inner is GroupValue ==> k <= o.inner->GroupValue_0.inner@.len(),
    ensures
        group_state(tys, mem, o, k, st).2.dom().finite(),
        st.2.dom().len() <= group_state(tys, mem, o, k, st).2.dom().len(),
        forall|j: nat|
            j <= k ==> (#[trigger] group_state(tys, mem, o, j, st)).2.dom().len() <= group_state(
                tys,
                mem,
                o,
                k,
                st,
            ).2.dom().len(),
    decreases o, 0int, k,
{
    if let ValueKindInner::GroupValue(g) = o.inner {
        if k > 0 {
            lemma_group_grows(tys, mem, o, (k - 1) as nat, st);
            lemma_fix_grows(tys, mem, g.inner@[k - 1], group_state(tys, mem, o, (k - 1) as nat, st));
        }
    }
}

proof fn lemma_values_grows(tys: Seq<Type>, mem: u64, vs: Seq<Value>, k: nat, st: FixState)
    requires
        st.2.dom().finite(),
        k <= vs.len(),
    ensures
        values_state(tys, mem, vs, k, st).2.dom().finite(),
        st.2.dom().len() <= values_state(tys, mem, vs, k, st).2.dom().len(),
        forall|j: nat|
            j <= k ==> (#[trigger] values_state(tys, mem, vs, j, st)).2.dom().len() <= values_state(
                tys,
                mem,
                vs,
                k,
                st,
            ).2.dom().len(),
    decreases k,
{
    if k > 0 {
        lemma_values_grows(tys, mem, vs, (k - 1) as nat, st);
        lemma_fix_grows(tys, mem, vs[k - 1], values_state(tys, mem, vs, (k - 1) as nat, st));
    }
}

proof fn lemma_call_grows(target: Target, c: ParsedCall, st: FixState)
    requires
        st.2.dom().finite(),
    ensures
        call_state(target, c, st).2.dom().finite(),
        st.2.dom().len() <= values_state(target.tys@, fixup_mem(target), c.args@, c.args@.len(), st).2.dom().len(),
        values_state(target.tys@, fixup_mem(target), c.args@, c.args@.len(), st).2.dom().len() <= call_state(
            target,
            c,
            st,
        ).2.dom().len(),
        forall|j: nat|
            j <= c.args@.len() ==> (#[trigger] values_state(target.tys@, fixup_mem(target), c.args@, j, st)).2.dom().len()
                <= call_state(target, c, st).2.dom().len(),
{
    let s = values_state(target.tys@, fixup_mem(target), c.args@, c.args@.len(), st);
    lemma_values_grows(target.tys@, fixup_mem(target), c.args@, c.args@.len(), st);
    if let Some(r) = c.ret {
        lemma_fix_grows(target.tys@, fixup_mem(target), r, s);
    }
}

proof fn lemma_calls_grows(target: Target, cs: Seq<ParsedCall>, k: nat, st: FixState)
    requires
        st.2.dom().finite(),
        k <= cs.len(),
    ensures
        calls_state(target, cs, k, st).2.dom().finite(),
        forall|j: nat|
            j <= k ==> (#[trigger] calls_state(target, cs, j, st)).2.dom().len() <= calls_state(
                target,
                cs,
                k,
                st,
            ).2.dom().len(),
    decreases k,
{
    if k > 0 {
        lemma_calls_grows(target, cs, (k - 1) as nat, st);
        lemma_call_grows(target, cs[k - 1], calls_state(target, cs, (k - 1) as nat, st));
    }
}

proof fn lemma_sum_sizes_eq(tys: Seq<Type>, a: Seq<Value>, b: Seq<Value>)
    requires
        a.len() == b.len(),
        forall|i: int| 0 <= i < a.len() ==> value_size(tys, #[trigger] a[i]) == value_size(tys, b[i]),
    ensures
        sum_sizes(tys, a) == sum_sizes(tys, b),
    decreases a.len(),
{
    if a.len() > 0 {
        lemma_sum_sizes_eq(tys, a.drop_last(), b.drop_last());
        assert(value_size(tys, a[a.len() - 1]) == value_size(tys, b[b.len() - 1]));
    }
}

proof fn lemma_fix_size(tys: Seq<Type>, mem: u64, o: Value, n: Value, st: FixState)
    requires
        fix_ok(tys, mem, o, n, st),
    ensures
        value_size(tys, n) == value_size(tys, o),
    decreases o,
{
    match o.inner {
        ValueKindInner::GroupValue(og) => {
            let ng = n.inner->GroupValue_0;
            assert forall|i: int| 0 <= i < og.inner@.len() implies value_size(tys, #[trigger] og.inner@[i])
                == value_size(tys, ng.inner@[i]) by {
                lemma_fix_size(tys, mem, og.inner@[i], ng.inner@[i], group_state(tys, mem, o, i as nat, st));
            }
            lemma_sum_sizes_eq(tys, og.inner@, ng.inner@);
        },
        ValueKindInner::UnionValue(ou) => {
            let nu = n.inner->UnionValue_0;
            lemma_fix_size(tys, mem, *ou.option, *nu.option, st);
        },
        _ => {},
    }
}

#[verifier::rlimit(60)]
#[verifier::spinoff_prover]
proof fn lemma_fix_again(tys: Seq<Type>, mem: u64, o: Value, n: Value, s1: FixState, s2: FixState)
    requires
        fix_ok(tys, mem, o, n, s1),
        s2.0 == s1.0,
        s2.1 == s1.1,
        renumbered_again(s1.2, s2.2),
        fix_state(tys, mem, o, s1).2.dom().len() <= usize::MAX,
    ensures
        fix_ok(tys, mem, n, n, s2),
        fix_state(tys, mem, n, s2).0 == fix_state(tys, mem, o, s1).0,
        fix_state(tys, mem, n, s2).1 == fix_state(tys, mem, o, s1).1,
        renumbered_again(fix_state(tys, mem, o, s1).2, fix_state(tys, mem, n, s2).2),
    decreases o, 1int, 0int,
{
    match o.inner {
        ValueKindInner::PtrValue(op) => {
            let np = n.inner->PtrValue_0;
            if let Some(ob) = op.pointee {
                let nb = np.pointee->0;
                let a = pointee_alloc(tys, mem, *ob, s1);
                lemma_fix_size(tys, mem, *ob, *nb, (a.0, a.1, s1.2));
                assert(fix_ok(tys, mem, *ob, *nb, (a.0, a.1, s1.2)));
                assert(nb.comm == ob.comm);
                assert(pointee_align(tys, *nb) == pointee_align(tys, *ob));
                assert(pointee_alloc(tys, mem, *nb, s2) == a);
                lemma_fix_again(tys, mem, *ob, *nb, (a.0, a.1, s1.2), (a.0, a.1, s2.2));
            }
        },
        ValueKindInner::GroupValue(og) => {
            lemma_group_again(tys, mem, o, n, og.inner@.len(), s1, s2);
        },
        ValueKindInner::UnionValue(ou) => {
            let nu = n.inner->UnionValue_0;
            lemma_fix_again(tys, mem, *ou.option, *nu.option, s1, s2);
        },
        ValueKindInner::ResValue(orr) => {
            let m = s1.2;
            let m2 = s2.2;
            match orr.kind {
                ResValueKind::Own(id) => {
                    if !m.contains_key(id) {
                        let l = m.dom().len();
                        lemma_fix_grows(tys, mem, o, s1);
                        assert(m.insert(id, l as usize).dom().len() == l + 1);
                        assert(!m2.contains_key(l as usize));
                        let m1 = m.insert(id, l as usize);
                        let m3 = m2.insert(l as usize, l as usize);
                        assert(m3.dom().len() == l + 1);
                        assert forall|x: ResValueId| #[trigger] m3.contains_key(x) implies m3[x] == x && exists|k: ResValueId|
                            m1.contains_key(k) && m1[k] == x by {
                            if x != l as usize {
                                let k0 = choose|k: ResValueId| m.contains_key(k) && m[k] == x;
                                assert(m1.contains_key(k0) && m1[k0] == x);
                            } else {
                                assert(m1.contains_key(id) && m1[id] == x);
                            }
                        }
                    }
                },
                _ => {},
            }
        },
        _ => {},
    }
}

#[verifier::rlimit(60)]
#[verifier::spinoff_prover]
proof fn lemma_group_again(tys: Seq<Type>, mem: u64, o: Value, n: Value, k: nat, s1: FixState, s2: FixState)
    requires
        fix_ok(tys, mem, o, n, s1),
        o.inner is GroupValue,
        k <= o.inner->GroupValue_0.inner@.len(),
        s2.0 == s1.0,
        s2.1 == s1.1,
        renumbered_again(s1.2, s2.2),
        group_state(tys, mem, o, k, s1).2.dom().len() <= usize::MAX,
    ensures
        group_state(tys, mem, n, k, s2).0 == group_state(tys, mem, o, k, s1).0,
        group_state(tys, mem, n, k, s2).1 == group_state(tys, mem, o, k, s1).1,
        renumbered_again(group_state(tys, mem, o, k, s1).2, group_state(tys, mem, n, k, s2).2),
        forall|i: int|
            0 <= i < k ==> fix_ok(
                tys,
                mem,
                #[trigger] n.inner->GroupValue_0.inner@[i],
                n.inner->GroupValue_0.inner@[i],
                group_state(tys, mem, n, i as nat, s2),
            ),
    decreases o, 0int, k,
{
    let og = o.inner->GroupValue_0.inner@;
    let ng = n.inner->GroupValue_0.inner@;
    if k > 0 {
        lemma_group_grows(tys, mem, o, k, s1);
        assert(group_state(tys, mem, o, (k - 1) as nat, s1).2.dom().len() <= group_state(tys, mem, o, k, s1).2.dom().len());
        lemma_group_again(tys, mem, o, n, (k - 1) as nat, s1, s2);
        let t1 = group_state(tys, mem, o, (k - 1) as nat, s1);
        let t2 = group_state(tys, mem, n, (k - 1) as nat, s2);
        assert(fix_ok(tys, mem, og[k - 1], ng[k - 1], t1));
        lemma_fix_again(tys, mem, og[k - 1], ng[k - 1], t1, t2);
    }
}

/// The state of the second fix-up after `k` values of `ns`, the result of
/// the first, against the first fix-up's state after `k` values of `os`.
#[verifier::rlimit(60)]
#[verifier::spinoff_prover]
proof fn lemma_values_again(tys: Seq<Type>, mem: u64, os: Seq<Value>, ns: Seq<Value>, k: nat, s1: FixState, s2: FixState)
    requires
        os.len() == ns.len(),
        k <= os.len(),
        forall|j: int| 0 <= j < os.len() ==> fix_ok(tys, mem, #[trigger] os[j], ns[j], values_state(tys, mem, os, j as nat, s1)),
        s2.0 == s1.0,
        s2.1 == s1.1,
        renumbered_again(s1.2, s2.2),
        values_state(tys, mem, os, k, s1).2.dom().len() <= usize::MAX,
    ensures
        values_state(tys, mem, ns, k, s2).0 == values_state(tys, mem, os, k, s1).0,
        values_state(tys, mem, ns, k, s2).1 == values_state(tys, mem, os, k, s1).1,
        renumbered_again(values_state(tys, mem, os, k, s1).2, values_state(tys, mem, ns, k, s2).2),
        forall|i: int| 0 <= i < k ==> fix_ok(tys, mem, #[trigger] ns[i], ns[i], values_state(tys, mem, ns, i as nat, s2)),
    decreases k,
{
    if k > 0 {
        lemma_values_grows(tys, mem, os, k, s1);
        assert(values_state(tys, mem, os, (k - 1) as nat, s1).2.dom().len() <= values_state(tys, mem, os, k, s1).2.dom().len());
        lemma_values_again(tys, mem, os, ns, (k - 1) as nat, s1, s2);
        let t1 = values_state(tys, mem, os, (k - 1) as nat, s1);
        let t2 = values_state(tys, mem, ns, (k - 1) as nat, s2);
        assert(fix_ok(tys, mem, os[k - 1], ns[k - 1], t1));
        lemma_fix_again(tys, mem, os[k - 1], ns[k - 1], t1, t2);
    }
}

#[verifier::rlimit(60)]
#[verifier::spinoff_prover]
proof fn lemma_call_again(target: Target, o: ParsedCall, n: ParsedCall, s1: FixState, s2: FixState)
    requires
        call_fix_ok(target, o, n, s1),
        s2.0 == s1.0,
        s2.1 == s1.1,
        renumbered_again(s1.2, s2.2),
        call_state(target, o, s1).2.dom().len() <= usize::MAX,
    ensures
        call_fix_ok(target, n, n, s2),
        call_state(target, n, s2).0 == call_state(target, o, s1).0,
        call_state(target, n, s2).1 == call_state(target, o, s1).1,
        renumbered_again(call_state(target, o, s1).2, call_state(target, n, s2).2),
{
    reveal(call_fix_ok);
    let tys = target.tys@;
    let mem = fixup_mem(target);
    let len = o.args@.len();
    lemma_call_grows(target, o, s1);
    lemma_values_again(tys, mem, o.args@, n.args@, len, s1, s2);
    if let Some(r) = o.ret {
        let nr = n.ret->0;
        lemma_fix_again(tys, mem, r, nr, values_state(tys, mem, o.args@, len, s1), values_state(tys, mem, n.args@, len, s2));
    }
}

#[verifier::rlimit(100)]
#[verifier::spinoff_prover]
proof fn lemma_calls_again(target: Target, o: Seq<ParsedCall>, n: Seq<ParsedCall>, k: nat)
    requires
        n.len() == o.len(),
        k <= o.len(),
        forall|c: int|
            0 <= c < o.len() ==> call_fix_ok(target, #[trigger] o[c], n[c], calls_state(target, o, c as nat, fixup_start(target))),
        calls_state(target, o, k, fixup_start(target)).2.dom().len() <= usize::MAX,
    ensures
        calls_state(target, n, k, fixup_start(target)).0 == calls_state(target, o, k, fixup_start(target)).0,
        calls_state(target, n, k, fixup_start(target)).1 == calls_state(target, o, k, fixup_start(target)).1,
        renumbered_again(calls_state(target, o, k, fixup_start(target)).2, calls_state(target, n, k, fixup_start(target)).2),
        forall|c: int|
            0 <= c < k ==> call_fix_ok(target, #[trigger] n[c], n[c], calls_state(target, n, c as nat, fixup_start(target))),
    decreases k,
{
    let st = fixup_start(target);
    if k == 0 {
        assert(st.2.dom() =~= Set::<ResValueId>::empty());
    } else {
        assert(st.2.dom() =~= Set::<ResValueId>::empty());
        lemma_calls_grows(target, o, k, st);
        assert(calls_state(target, o, (k - 1) as nat, st).2.dom().len() <= calls_state(target, o, k, st).2.dom().len());
        lemma_calls_again(target, o, n, (k - 1) as nat);
        lemma_call_again(
            target,
            o[k - 1],
            n[k - 1],
            calls_state(target, o, (k - 1) as nat, st),
            calls_state(target, n, (k - 1) as nat, st),
        );
    }
}

/// `n` is what fixing up the program `o` gives (see `fixup`): each call is
/// fixed up from the state the pass is in when it gets there, records the
/// resources it produces and uses, and the pass numbers no more resources
/// than a `usize` can count.
pub open spec fn fixed_up(target: Target, o: Seq<ParsedCall>, n: Seq<ParsedCall>) -> bool {
    &&& n.len() == o.len()
    &&& forall|c: int|
        0 <= c < o.len() ==> call_fix_ok(target, #[trigger] o[c], n[c], calls_state(target, o, c as nat, fixup_start(target)))
    &&& forall|c: int| 0 <= c < n.len() ==> res_tables_ok(target.tys@, #[trigger] n[c])
    &&& calls_state(target, o, o.len(), fixup_start(target)).2.dom().len() <= usize::MAX
}

/// Fixing up a program that was fixed up leaves it as it is: each call of
/// the result is its own fix-up from the state the second pass is in when
/// it gets there. It holds while the first pass numbers no more resources
/// than a `usize` can count.
pub proof fn lemma_fixup_again(target: Target, o: Seq<ParsedCall>, n: Seq<ParsedCall>)
    requires
        n.len() == o.len(),
        forall|c: int|
            0 <= c < o.len() ==> call_fix_ok(target, #[trigger] o[c], n[c], calls_state(target, o, c as nat, fixup_start(target))),
        calls_state(target, o, o.len(), fixup_start(target)).2.dom().len() <= usize::MAX,
    ensures
        forall|c: int|
            0 <= c < n.len() ==> call_fix_ok(target, #[trigger] n[c], n[c], calls_state(target, n, c as nat, fixup_start(target))),
{
    lemma_calls_again(target, o, n, o.len());
}

proof fn lemma_fix_ready(tys: Seq<Type>, mem: u64, o: Value, n: Value, st: FixState)
    requires
        fix_ok(tys, mem, o, n, st),
        value_tys_known(tys, o),
        pointees_fit(tys, mem, o),
    ensures
        value_tys_known(tys, n),
        pointees_fit(tys, mem, n),
    decreases o,
{
    match o.inner {
        ValueKindInner::PtrValue(op) => {
            if let Some(ob) = op.pointee {
                let np = n.inner->PtrValue_0;
                let nb = np.pointee->0;
                let a = pointee_alloc(tys, mem, *ob, st);
                lemma_fix_size(tys, mem, *ob, *nb, (a.0, a.1, st.2));
                lemma_fix_ready(tys, mem, *ob, *nb, (a.0, a.1, st.2));
                assert(fix_ok(tys, mem, *ob, *nb, (a.0, a.1, st.2)));
                assert(nb.comm == ob.comm);
                assert(pointee_align(tys, *nb) == pointee_align(tys, *ob));
            }
        },
        ValueKindInner::GroupValue(og) => {
            let ng = n.inner->GroupValue_0;
            assert forall|i: int| 0 <= i < ng.inner@.len() implies value_tys_known(tys, #[trigger] ng.inner@[i])
                && pointees_fit(tys, mem, ng.inner@[i]) by {
                lemma_fix_ready(tys, mem, og.inner@[i], ng.inner@[i], group_state(tys, mem, o, i as nat, st));
            }
        },
        ValueKindInner::UnionValue(ou) => {
            let nu = n.inner->UnionValue_0;
            lemma_fix_ready(tys, mem, *ou.option, *nu.option, st);
        },
        _ => {},
    }
}

proof fn lemma_call_ready(target: Target, o: ParsedCall, n: ParsedCall, st: FixState)
    requires
        call_fix_ok(target, o, n, st),
        call_values_ok(target, o),
    ensures
        call_values_ok(target, n),
{
    reveal(call_fix_ok);
    let tys = target.tys@;
    let mem = fixup_mem(target);
    assert forall|j: int| 0 <= j < n.args@.len() implies value_tys_known(tys, #[trigger] n.args@[j]) && pointees_fit(
        tys,
        mem,
        n.args@[j],
    ) by {
        lemma_fix_ready(tys, mem, o.args@[j], n.args@[j], values_state(tys, mem, o.args@, j as nat, st));
    }
    if let Some(r) = o.ret {
        lemma_fix_ready(tys, mem, r, n.ret->0, values_state(tys, mem, o.args@, o.args@.len(), st));
    }
}

/// Fixes up one call from the allocator and renumbering given (see
/// `call_fix_ok`), and records the resources it produces and uses.
#[verifier::rlimit(60)]
#[verifier::spinoff_prover]
fn fix_call(
    target: &Target,
    call: &mut ParsedCall,
    alloc: &mut Allocator,
    map: &mut AHashMap<ResValueId, ResValueId>,
)
    requires
        target.wf(),
        call_values_ok(*target, *old(call)),
        old(alloc).wf(),
        old(alloc).spec_size() == fixup_mem(*target),
        numbering_ok(usize_pairs(*old(map))),
    ensures
        final(alloc).wf(),
        final(alloc).spec_size() == old(alloc).spec_size(),
        numbering_ok(usize_pairs(*final(map))),
        extends(usize_pairs(*old(map)), usize_pairs(*final(map))),
        call_fixed(*target, *old(call), *final(call), usize_pairs(*final(map))),
        call_fix_ok(
            *target,
            *old(call),
            *final(call),
            (old(alloc).spec_blocks(), old(alloc).spec_last_max(), usize_pairs(*old(map))),
        ),
        (final(alloc).spec_blocks(), final(alloc).spec_last_max(), usize_pairs(*final(map))) == call_state(
            *target,
            *old(call),
            (old(alloc).spec_blocks(), old(alloc).spec_last_max(), usize_pairs(*old(map))),
        ),
        res_tables_ok(target.tys@, *final(call)),
{
    let ghost mem = fixup_mem(*target);
    let ghost m0 = usize_pairs(*map);
    let ghost sc: FixState = (alloc.spec_blocks(), alloc.spec_last_max(), usize_pairs(*map));
    let ghost o = *call;
    let mut j: usize = 0;
    while j < call.args.len()
        invariant
            target.wf(),
            o == *old(call),
            call_values_ok(*target, o),
            call.sid == o.sid,
            call.ret == o.ret,
            call.args@.len() == o.args@.len(),
            j <= o.args@.len(),
            alloc.wf(),
            alloc.spec_size() == mem,
            mem == fixup_mem(*target),
            numbering_ok(usize_pairs(*map)),
            extends(m0, usize_pairs(*map)),
            forall|k: int| j <= k < o.args@.len() ==> #[trigger] call.args@[k] == o.args@[k],
            forall|k: int| 0 <= k < j ==> fixed(target.tys@, mem, #[trigger] o.args@[k], call.args@[k], usize_pairs(*map)),
            (alloc.spec_blocks(), alloc.spec_last_max(), usize_pairs(*map)) == values_state(
                target.tys@,
                mem,
                o.args@,
                j as nat,
                sc,
            ),
            forall|k: int|
                0 <= k < j ==> fix_ok(
                    target.tys@,
                    mem,
                    #[trigger] o.args@[k],
                    call.args@[k],
                    values_state(target.tys@, mem, o.args@, k as nat, sc),
                ),
        decreases o.args@.len() - j,
    {
        let mut e = Value::from_int(crate::value::IntegerValue::new(0, crate::ty::Dir::In, 0));
        call.args.set_and_swap(j, &mut e);
        proof {
            assert(e == o.args@[j as int]);
            assert(value_tys_known(target.tys@, o.args@[j as int]) && pointees_fit(target.tys@, mem, o.args@[j as int]));
        }
        let ghost m1 = usize_pairs(*map);
        fix_value(target, &mut e, alloc, map);
        call.args.set_and_swap(j, &mut e);
        proof {
            assert(values_state(target.tys@, mem, o.args@, (j + 1) as nat, sc) == fix_state(
                target.tys@,
                mem,
                o.args@[j as int],
                values_state(target.tys@, mem, o.args@, j as nat, sc),
            ));
            assert forall|k: int| 0 <= k < j + 1 implies fixed(
                target.tys@,
                mem,
                #[trigger] o.args@[k],
                call.args@[k],
                usize_pairs(*map),
            ) by {
                if k < j {
                    lemma_fixed_extends(target.tys@, mem, o.args@[k], call.args@[k], m1, usize_pairs(*map));
                }
            }
        }
        j = j + 1;
    }
    let ghost m2 = usize_pairs(*map);
    match &mut call.ret {
        Some(r) => {
            proof {
                assert(value_tys_known(target.tys@, o.ret->0) && pointees_fit(target.tys@, mem, o.ret->0));
            }
            fix_value(target, r, alloc, map);
            proof {
                assert forall|k: int| 0 <= k < o.args@.len() implies fixed(
                    target.tys@,
                    mem,
                    #[trigger] o.args@[k],
                    call.args@[k],
                    usize_pairs(*map),
                ) by {
                    lemma_fixed_extends(target.tys@, mem, o.args@[k], call.args@[k], m2, usize_pairs(*map));
                }
            }
        },
        None => {},
    }
    let (gen, used) = call_res_tables(target, call);
    call.generated_res = gen;
    call.used_res = used;
    proof {
        assert(call_fixed(*target, o, *call, usize_pairs(*map)));
        reveal(call_fix_ok);
        assert(call_fix_ok(*target, o, *call, sc));
    }
}

/// Fixes up the values of a program in order (each call's arguments, then
/// its result, each in pre-order): every pointer with a pointee is given
/// an address from one allocator over the target's memory, and the
/// resources the calls produce are numbered from 0 in order of first
/// appearance; a used resource takes the new number of the one it uses
/// once that one has appeared. Each call then records the resources it
/// produces and uses, by kind name. The result is ready to be fixed up
/// again and is its own fix-up: fixing it up again leaves every value as
/// it is (see `lemma_fixup_again`).
#[verifier::rlimit(100)]
#[verifier::spinoff_prover]
pub fn fixup(target: &Target, calls: &mut Vec<ParsedCall>)
    requires
        target.wf(),
        target.page_sz * target.page_num <= MAX_MEM_SIZE,
        forall|c: int| 0 <= c < old(calls)@.len() ==> call_values_ok(*target, #[trigger] old(calls)@[c]),
    ensures
        final(calls)@.len() == old(calls)@.len(),
        exists|m: Map<ResValueId, ResValueId>|
            numbering_ok(m) && forall|c: int|
                0 <= c < old(calls)@.len() ==> call_fixed(*target, #[trigger] old(calls)@[c], final(calls)@[c], m),
        forall|c: int|
            0 <= c < old(calls)@.len() ==> call_fix_ok(
                *target,
                #[trigger] old(calls)@[c],
                final(calls)@[c],
                calls_state(*target, old(calls)@, c as nat, fixup_start(*target)),
            ),
        forall|c: int| 0 <= c < final(calls)@.len() ==> res_tables_ok(target.tys@, #[trigger] final(calls)@[c]),
        forall|c: int| 0 <= c < final(calls)@.len() ==> call_values_ok(*target, #[trigger] final(calls)@[c]),
        forall|c: int|
            0 <= c < final(calls)@.len() ==> call_fix_ok(
                *target,
                #[trigger] final(calls)@[c],
                final(calls)@[c],
                calls_state(*target, final(calls)@, c as nat, fixup_start(*target)),
            ),
        fixed_up(*target, old(calls)@, final(calls)@),
{
    let mut alloc = Allocator::new(target.page_sz * target.page_num);
    let mut map: AHashMap<ResValueId, ResValueId> = usize_map_new();
    let ghost oc = calls@;
    let ghost mem = fixup_mem(*target);
    let mut c: usize = 0;
    while c < calls.len()
        invariant
            target.wf(),
            oc == old(calls)@,
            calls@.len() == oc.len(),
            c <= oc.len(),
            alloc.wf(),
            alloc.spec_size() == mem,
            mem == fixup_mem(*target),
            numbering_ok(usize_pairs(map)),
            forall|k: int| 0 <= k < oc.len() ==> call_values_ok(*target, #[trigger] oc[k]),
            forall|k: int| c <= k < oc.len() ==> #[trigger] calls@[k] == oc[k],
            forall|k: int| 0 <= k < c ==> call_fixed(*target, #[trigger] oc[k], calls@[k], usize_pairs(map)),
            (alloc.spec_blocks(), alloc.spec_last_max(), usize_pairs(map)) == calls_state(
                *target,
                oc,
                c as nat,
                fixup_start(*target),
            ),
            forall|k: int|
                0 <= k < c ==> call_fix_ok(
                    *target,
                    #[trigger] oc[k],
                    calls@[k],
                    calls_state(*target, oc, k as nat, fixup_start(*target)),
                ),
            forall|k: int| 0 <= k < c ==> res_tables_ok(target.tys@, #[trigger] calls@[k]),
        decreases oc.len() - c,
    {
        let mut call = ParsedCall { sid: 0, args: Vec::new(), ret: None, generated_res: Vec::new(), used_res: Vec::new() };
        calls.set_and_swap(c, &mut call);
        let ghost m0 = usize_pairs(map);
        proof {
            assert(call == oc[c as int]);
        }
        fix_call(target, &mut call, &mut alloc, &mut map);
        proof {
            assert(calls_state(*target, oc, (c + 1) as nat, fixup_start(*target)) == call_state(
                *target,
                oc[c as int],
                calls_state(*target, oc, c as nat, fixup_start(*target)),
            ));
        }
        calls.set_and_swap(c, &mut call);
        proof {
            assert forall|k: int| 0 <= k < c + 1 implies call_fix_ok(
                *target,
                #[trigger] oc[k],
                calls@[k],
                calls_state(*target, oc, k as nat, fixup_start(*target)),
            ) && res_tables_ok(target.tys@, calls@[k]) by {}
            assert forall|k: int| 0 <= k < c + 1 implies call_fixed(*target, #[trigger] oc[k], calls@[k], usize_pairs(map)) by {
                if k < c {
                    lemma_call_fixed_extends(*target, oc[k], calls@[k], m0, usize_pairs(map));
                }
            }
        }
        c = c + 1;
    }
    let _count = usize_map_len(&map);
    proof {
        assert(numbering_ok(usize_pairs(map)) && forall|k: int|
            0 <= k < oc.len() ==> call_fixed(*target, #[trigger] oc[k], calls@[k], usize_pairs(map)));
        assert forall|k: int| 0 <= k < calls@.len() implies call_values_ok(*target, #[trigger] calls@[k]) by {
            lemma_call_ready(*target, oc[k], calls@[k], calls_state(*target, oc, k as nat, fixup_start(*target)));
        }
        lemma_fixup_again(*target, oc, calls@);
    }
}

/// Whether every value in the tree of `v` has a type of the target and
/// every pointee fits in a data area of `mem` bytes (see `pointees_fit`).
pub fn value_ready(target: &Target, v: &Value, mem: u64) -> (r: bool)
    requires
        target.wf(),
    ensures
        r == (value_tys_known(target.tys@, *v) && pointees_fit(target.tys@, mem, *v)),
    decreases *v,
{
    if find_ty(&target.tys, v.comm.ty_id).is_none() {
        return false;
    }
    match &v.inner {
        ValueKindInner::PtrValue(p) => {
            match &p.pointee {
                Some(b) => {
                    proof {
                        assert(decreases_to!(*v => **b));
                    }
                    if !value_ready(target, b, mem) {
                        return false;
                    }
                    let sz = match b.checked_size(target) {
                        Some(s) => s,
                        None => {
                            return false;
                        },
                    };
                    let ty = lookup_ty(target, b.comm.ty_id);
                    let a = ty.align();
                    let al: u64 = if a == 0 {
                        1
                    } else {
                        a
                    };
                    let aa: u64 = if al < ALLOC_GRANULE {
                        ALLOC_GRANULE
                    } else {
                        al
                    };
                    proof {
                        vstd::arithmetic::div_mod::lemma_mod_decreases(sz as nat, aa as nat);
                    }
                    let rounded: u128 = if sz % aa == 0 {
                        sz as u128
                    } else {
                        (sz - sz % aa) as u128 + aa as u128
                    };
                    rounded < mem as u128 && (mem as u128) + (aa as u128) <= ADDR_SPACE_LIMIT as u128
                },
                None => true,
            }
        },
        ValueKindInner::GroupValue(g) => {
            let mut i: usize = 0;
            while i < g.inner.len()
                invariant
                    target.wf(),
                    v.inner == ValueKindInner::GroupValue(*g),
                    i <= g.inner@.len(),
                    forall|j: int|
                        0 <= j < i ==> value_tys_known(target.tys@, #[trigger] g.inner@[j]) && pointees_fit(
                            target.tys@,
                            mem,
                            g.inner@[j],
                        ),
                decreases g.inner.len() - i,
            {
                proof {
                    assert(decreases_to!(*v => g.inner@[i as int])) by {
                        assert(decreases_to!(*v => v.inner));
                        assert(decreases_to!(v.inner => *g));
                        assert(decreases_to!(*g => g.inner));
                        assert(decreases_to!(g.inner => g.inner@));
                        assert(decreases_to!(g.inner@ => g.inner@[i as int]));
                    }
                }
                if !value_ready(target, &g.inner[i], mem) {
                    return false;
                }
                i = i + 1;
            }
            true
        },
        ValueKindInner::UnionValue(u) => {
            proof {
                assert(decreases_to!(*v => *u.option));
            }
            value_ready(target, &u.option, mem)
        },
        _ => true,
    }
}

/// Whether a call's values are ready to be fixed up (see `call_values_ok`).
pub fn call_ready(target: &Target, c: &ParsedCall) -> (r: bool)
    requires
        target.wf(),
        target.page_sz * target.page_num <= MAX_MEM_SIZE,
    ensures
        r == call_values_ok(*target, *c),
{
    let mem = fixup_mem_exec(target);
    let mut j: usize = 0;
    while j < c.args.len()
        invariant
            target.wf(),
            mem == fixup_mem(*target),
            j <= c.args@.len(),
            forall|k: int|
                0 <= k < j ==> value_tys_known(target.tys@, #[trigger] c.args@[k]) && pointees_fit(
                    target.tys@,
                    mem,
                    c.args@[k],
                ),
        decreases c.args.len() - j,
    {
        if !value_ready(target, &c.args[j], mem) {
            return false;
        }
        j = j + 1;
    }
    match &c.ret {
        Some(r) => value_ready(target, r, mem),
        None => true,
    }
}

fn fixup_mem_exec(target: &Target) -> (r: u64)
    requires
        target.page_sz * target.page_num <= MAX_MEM_SIZE,
    ensures
        r == fixup_mem(*target),
{
    let sz = target.page_sz * target.page_num;
    if sz % ALLOC_GRANULE == 0 {
        sz
    } else {
        sz - sz % ALLOC_GRANULE + ALLOC_GRANULE
    }
}

} // verus!

//! The resources a call produces and uses, by kind name.
use crate::idset::{insert_sorted, strictly_sorted};
use crate::parse::ParsedCall;
use crate::size::{lookup_ty, ty_with_id};
use crate::target::{find_ty, has_ty, Target};
use crate::ty::Type;
use crate::value::{ResValue, ResValueId, ResValueKind, Value, ValueKindInner};
use vstd::prelude::*;

verus! {

/// A table of resources: kind names, each once, with their ids, sorted and
/// each once.
pub type ResTable = Vec<(String, Vec<ResValueId>)>;

/// The (kind name, id) pairs a table holds.
pub open spec fn table_pairs(t: Seq<(String, Vec<ResValueId>)>) -> Set<(Seq<char>, ResValueId)> {
    Set::new(|p: (Seq<char>, ResValueId)| exists|i: int| 0 <= i < t.len() && t[i].0@ == p.0 && (#[trigger] t[i].1@).contains(p.1))
}

/// Names appear once in a table and each id list is strictly sorted.
pub open spec fn table_ok(t: Seq<(String, Vec<ResValueId>)>) -> bool {
    &&& forall|i: int, j: int| 0 <= i < j < t.len() ==> t[i].0@ != t[j].0@
    &&& forall|i: int| 0 <= i < t.len() ==> strictly_sorted(#[trigger] t[i].1@)
}

/// The resource a resource value produces (`own`) or uses, with the name
/// of its kind, if its type is a resource type of `tys`.
pub open spec fn res_here(tys: Seq<Type>, v: Value, r: ResValue, own: bool) -> Set<(Seq<char>, ResValueId)> {
    if has_ty(tys, v.comm.ty_id) && ty_with_id(tys, v.comm.ty_id) is Res {
        let name = ty_with_id(tys, v.comm.ty_id)->Res_0.name@;
        match r.kind {
            ResValueKind::Own(id) => if own {
                set![(name, id)]
            } else {
                Set::empty()
            },
            ResValueKind::Ref(id) => if own {
                Set::empty()
            } else {
                set![(name, id)]
            },
            ResValueKind::Null => Set::empty(),
        }
    } else {
        Set::empty()
    }
}

/// The resources in the tree of `v` that are produced (`own`) or used.
pub open spec fn res_in_value(tys: Seq<Type>, v: Value, own: bool) -> Set<(Seq<char>, ResValueId)>
    decreases v, 1nat,
{
    match v.inner {
        ValueKindInner::PtrValue(p) => match p.pointee {
            Some(b) => res_in_value(tys, *b, own),
            None => Set::empty(),
        },
        ValueKindInner::GroupValue(g) => res_in_values(tys, g.inner@, own),
        ValueKindInner::UnionValue(u) => res_in_value(tys, *u.option, own),
        ValueKindInner::ResValue(r) => res_here(tys, v, r, own),
        _ => Set::empty(),
    }
}

/// The resources in the trees of `vs`.
pub open spec fn res_in_values(tys: Seq<Type>, vs: Seq<Value>, own: bool) -> Set<(Seq<char>, ResValueId)>
    decreases vs, 0nat,
{
    if vs.len() == 0 {
        Set::empty()
    } else {
        res_in_values(tys, vs.drop_last(), own) + res_in_value(tys, vs.last(), own)
    }
}

/// The resources a call produces (`own`) or uses, in its arguments and
/// its result.
pub open spec fn call_res(tys: Seq<Type>, c: ParsedCall, own: bool) -> Set<(Seq<char>, ResValueId)> {
    res_in_values(tys, c.args@, own) + match c.ret {
        Some(r) => res_in_value(tys, r, own),
        None => Set::empty(),
    }
}

/// The tables of a call hold what it produces and what it uses.
pub open spec fn res_tables_ok(tys: Seq<Type>, c: ParsedCall) -> bool {
    &&& table_ok(c.generated_res@)
    &&& table_ok(c.used_res@)
    &&& table_pairs(c.generated_res@) == call_res(tys, c, true)
    &&& table_pairs(c.used_res@) == call_res(tys, c, false)
}

/// Adds the pair (`name`, `id`) to a table.
fn add_res(t: &mut ResTable, name: &String, id: ResValueId)
    requires
        table_ok(old(t)@),
    ensures
        table_ok(final(t)@),
        table_pairs(final(t)@) == table_pairs(old(t)@).insert((name@, id)),
{
    let ghost o = t@;
    let mut i: usize = 0;
    while i < t.len()
        invariant
            t@ == o,
            o == old(t)@,
            table_ok(o),
            i <= o.len(),
            forall|j: int| 0 <= j < i ==> o[j].0@ != name@,
        decreases t.len() - i,
    {
        if t[i].0 == *name {
            let mut e = (String::new(), Vec::new());
            t.set_and_swap(i, &mut e);
            assert(e == o[i as int]);
            insert_sorted(&mut e.1, id);
            t.set_and_swap(i, &mut e);
            proof {
                assert forall|p: (Seq<char>, ResValueId)| table_pairs(t@).contains(p) == table_pairs(o).insert((name@, id)).contains(p) by {
                    if table_pairs(t@).contains(p) {
                        let k = choose|k: int| 0 <= k < t@.len() && t@[k].0@ == p.0 && (#[trigger] t@[k].1@).contains(p.1);
                        if k != i {
                            assert(o[k].1@.contains(p.1));
                        } else if p.1 != id {
                            assert(t@[k].1@.to_set().contains(p.1));
                            assert(o[k].1@.to_set().contains(p.1));
                            assert(o[k].1@.contains(p.1));
                        }
                    }
                    if table_pairs(o).insert((name@, id)).contains(p) {
                        if p == (name@, id) {
                            assert(t@[i as int].1@.to_set().contains(id));
                            assert(t@[i as int].1@.contains(id));
                        } else {
                            let k = choose|k: int| 0 <= k < o.len() && o[k].0@ == p.0 && (#[trigger] o[k].1@).contains(p.1);
                            if k == i {
                                assert(o[k].1@.to_set().contains(p.1));
                                assert(t@[k].1@.to_set().contains(p.1));
                                assert(t@[k].1@.contains(p.1));
                            } else {
                                assert(t@[k].1@.contains(p.1));
                            }
                        }
                    }
                }
                assert(table_pairs(t@) =~= table_pairs(o).insert((name@, id)));
            }
            return;
        }
        i = i + 1;
    }
    let mut ids: Vec<ResValueId> = Vec::new();
    ids.push(id);
    t.push((name.clone(), ids));
    proof {
        let n = o.len() as int;
        assert(t@[n].1@[0] == id);
        assert(t@[n].1@.contains(id));
        assert forall|p: (Seq<char>, ResValueId)| table_pairs(t@).contains(p) == table_pairs(o).insert((name@, id)).contains(p) by {
            if table_pairs(t@).contains(p) {
                let k = choose|k: int| 0 <= k < t@.len() && t@[k].0@ == p.0 && (#[trigger] t@[k].1@).contains(p.1);
                if k < n {
                    assert(o[k].1@.contains(p.1));
                }
            }
            if table_pairs(o).contains(p) {
                let k = choose|k: int| 0 <= k < o.len() && o[k].0@ == p.0 && (#[trigger] o[k].1@).contains(p.1);
                assert(t@[k].1@.contains(p.1));
            }
        }
        assert(table_pairs(t@) =~= table_pairs(o).insert((name@, id)));
    }
}

/// Adds the resources in the tree of `v` to the tables of produced and of
/// used resources.
fn collect_value(target: &Target, v: &Value, gen: &mut ResTable, used: &mut ResTable)
    requires
        target.wf(),
        table_ok(old(gen)@),
        table_ok(old(used)@),
    ensures
        table_ok(final(gen)@),
        table_ok(final(used)@),
        table_pairs(final(gen)@) == table_pairs(old(gen)@) + res_in_value(target.tys@, *v, true),
        table_pairs(final(used)@) == table_pairs(old(used)@) + res_in_value(target.tys@, *v, false),
    decreases *v,
{
    match &v.inner {
        ValueKindInner::PtrValue(p) => {
            match &p.pointee {
                Some(b) => {
                    proof {
                        assert(decreases_to!(*v => **b));
                    }
                    collect_value(target, b, gen, used);
                },
                None => {
                    proof {
                        assert(table_pairs(gen@) + Set::empty() =~= table_pairs(gen@));
                        assert(table_pairs(used@) + Set::empty() =~= table_pairs(used@));
                    }
                },
            }
        },
        ValueKindInner::GroupValue(g) => {
            let ghost g0 = table_pairs(gen@);
            let ghost u0 = table_pairs(used@);
            let ghost vs = g.inner@;
            let mut i: usize = 0;
            proof {
                assert(vs.take(0) =~= Seq::<Value>::empty());
                assert(g0 + Set::empty() =~= g0);
                assert(u0 + Set::empty() =~= u0);
            }
            while i < g.inner.len()
                invariant
                    target.wf(),
                    v.inner == ValueKindInner::GroupValue(*g),
                    vs == g.inner@,
                    i <= vs.len(),
                    table_ok(gen@),
                    table_ok(used@),
                    table_pairs(gen@) == g0 + res_in_values(target.tys@, vs.take(i as int), true),
                    table_pairs(used@) == u0 + res_in_values(target.tys@, vs.take(i as int), false),
                decreases g.inner.len() - i,
            {
                proof {
                    assert(decreases_to!(*v => vs[i as int])) by {
                        assert(decreases_to!(*v => v.inner));
                        assert(decreases_to!(v.inner => v.inner->GroupValue_0));
                        assert(decreases_to!(v.inner->GroupValue_0 => v.inner->GroupValue_0.inner));
                        assert(decreases_to!(v.inner->GroupValue_0.inner => vs));
                        assert(decreases_to!(vs => vs[i as int]));
                    }
                }
                collect_value(target, &g.inner[i], gen, used);
                proof {
                    let t1 = vs.take(i + 1);
                    assert(t1.drop_last() =~= vs.take(i as int));
                    assert(t1.last() == vs[i as int]);
                    assert(table_pairs(gen@) =~= g0 + res_in_values(target.tys@, t1, true));
                    assert(table_pairs(used@) =~= u0 + res_in_values(target.tys@, t1, false));
                }
                i = i + 1;
            }
            proof {
                assert(vs.take(vs.len() as int) =~= vs);
            }
        },
        ValueKindInner::UnionValue(u) => {
            proof {
                assert(decreases_to!(*v => *u.option));
            }
            collect_value(target, &u.option, gen, used);
        },
        ValueKindInner::ResValue(r) => {
            let ghost g0 = table_pairs(gen@);
            let ghost u0 = table_pairs(used@);
            let mut found = false;
            if find_ty(&target.tys, v.comm.ty_id).is_some() {
                let ty = lookup_ty(target, v.comm.ty_id);
                match ty {
                    Type::Res(t) => {
                        match r.kind {
                            ResValueKind::Own(id) => {
                                add_res(gen, &t.name, id);
                                proof {
                                    assert(table_pairs(gen@) =~= g0 + res_in_value(target.tys@, *v, true));
                                    assert(table_pairs(used@) =~= u0 + res_in_value(target.tys@, *v, false));
                                }
                            },
                            ResValueKind::Ref(id) => {
                                add_res(used, &t.name, id);
                                proof {
                                    assert(table_pairs(gen@) =~= g0 + res_in_value(target.tys@, *v, true));
                                    assert(table_pairs(used@) =~= u0 + res_in_value(target.tys@, *v, false));
                                }
                            },
                            ResValueKind::Null => {
                                proof {
                                    assert(table_pairs(gen@) =~= g0 + res_in_value(target.tys@, *v, true));
                                    assert(table_pairs(used@) =~= u0 + res_in_value(target.tys@, *v, false));
                                }
                            },
                        }
                        found = true;
                    },
                    _ => {},
                }
            }
            if !found {
                proof {
                    assert(table_pairs(gen@) =~= g0 + res_in_value(target.tys@, *v, true));
                    assert(table_pairs(used@) =~= u0 + res_in_value(target.tys@, *v, false));
                }
            }
        },
        _ => {
            proof {
                assert(table_pairs(gen@) + Set::empty() =~= table_pairs(gen@));
                assert(table_pairs(used@) + Set::empty() =~= table_pairs(used@));
            }
        },
    }
}

/// The tables of the resources a call produces and uses, by kind name.
pub fn call_res_tables(target: &Target, c: &ParsedCall) -> (r: (ResTable, ResTable))
    requires
        target.wf(),
    ensures
        table_ok(r.0@),
        table_ok(r.1@),
        table_pairs(r.0@) == call_res(target.tys@, *c, true),
        table_pairs(r.1@) == call_res(target.tys@, *c, false),
{
    let mut gen: ResTable = Vec::new();
    let mut used: ResTable = Vec::new();
    let ghost vs = c.args@;
    proof {
        assert(table_pairs(gen@) =~= Set::empty());
        assert(table_pairs(used@) =~= Set::empty());
        assert(vs.take(0) =~= Seq::<Value>::empty());
    }
    let mut i: usize = 0;
    while i < c.args.len()
        invariant
            target.wf(),
            vs == c.args@,
            i <= vs.len(),
            table_ok(gen@),
            table_ok(used@),
            table_pairs(gen@) == res_in_values(target.tys@, vs.take(i as int), true),
            table_pairs(used@) == res_in_values(target.tys@, vs.take(i as int), false),
        decreases c.args.len() - i,
    {
        collect_value(target, &c.args[i], &mut gen, &mut used);
        proof {
            let t1 = vs.take(i + 1);
            assert(t1.drop_last() =~= vs.take(i as int));
            assert(t1.last() == vs[i as int]);
        }
        i = i + 1;
    }
    proof {
        assert(vs.take(vs.len() as int) =~= vs);
    }
    match &c.ret {
        Some(r) => {
            collect_value(target, r, &mut gen, &mut used);
        },
        None => {
            proof {
                assert(table_pairs(gen@) + Set::empty() =~= table_pairs(gen@));
                assert(table_pairs(used@) + Set::empty() =~= table_pairs(used@));
            }
        },
    }
    (gen, used)
}

} // verus!

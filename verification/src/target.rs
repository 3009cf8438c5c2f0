//! Description of a target: its syscalls, types and resources.
use crate::idset::{contains_sorted, insert_sorted, lemma_sorted_set_eq, lemma_without, remove_sorted, strictly_sorted, without};
use crate::syscall::{Syscall, SyscallId};
use crate::ty::group::Field;
use crate::strings::strs_view;
use crate::ty::res::{res_same, ResType};
use crate::ty::defaults::{lemma_array_elem_decreases, lemma_field_decreases};
use crate::ty::{Dir, Type, TypeId};
use vstd::pervasive::VecAdditionalExecFns;
use vstd::prelude::*;

verus! {

/// A resource kind, as its index in the target's list of resource kinds.
pub type ResKindId = usize;

/// Type ids strictly increase along the sequence.
pub open spec fn tys_sorted(tys: Seq<Type>) -> bool {
    forall|i: int, j: int| 0 <= i < j < tys.len() ==> tys[i].spec_comm().id < tys[j].spec_comm().id
}

/// Syscall ids strictly increase along the sequence.
pub open spec fn syscalls_sorted(s: Seq<Syscall>) -> bool {
    forall|i: int, j: int| 0 <= i < j < s.len() ==> s[i].id < s[j].id
}

/// Some type of the sequence has id `tid`.
pub open spec fn has_ty(tys: Seq<Type>, tid: TypeId) -> bool {
    exists|i: int| 0 <= i < tys.len() && tys[i].spec_comm().id == tid
}

/// Every resource named in the tree of `ty` is one of `kinds`, and every
/// pointer in it points to a type of `tys` (pointees are not followed).
pub open spec fn ty_resolves(ty: Type, tys: Seq<Type>, kinds: Seq<Seq<char>>) -> bool
    decreases ty,
{
    match ty {
        Type::Res(t) => kinds.contains(t.name@),
        Type::Ptr(t) => has_ty(tys, t.elem),
        Type::Array(t) => ty_resolves(*t.elem, tys, kinds),
        Type::Struct(t) => forall|i: int|
            0 <= i < t.fields@.len() ==> ty_resolves(*(#[trigger] t.fields@[i]).ty, tys, kinds),
        Type::Union(t) => forall|i: int|
            0 <= i < t.fields@.len() ==> ty_resolves(*(#[trigger] t.fields@[i]).ty, tys, kinds),
        _ => true,
    }
}

/// Some resource type in the tree of `ty` (pointees not followed) has this
/// name.
pub open spec fn res_name_in(ty: Type, name: Seq<char>) -> bool
    decreases ty,
{
    match ty {
        Type::Res(t) => t.name@ == name,
        Type::Array(t) => res_name_in(*t.elem, name),
        Type::Struct(t) => exists|i: int|
            0 <= i < t.fields@.len() && res_name_in(*(#[trigger] t.fields@[i]).ty, name),
        Type::Union(t) => exists|i: int|
            0 <= i < t.fields@.len() && res_name_in(*(#[trigger] t.fields@[i]).ty, name),
        _ => false,
    }
}

/// A resource of this name occurs in `root` or in one of `tys`.
pub open spec fn name_occurs(tys: Seq<Type>, root: Type, name: Seq<char>) -> bool {
    res_name_in(root, name) || exists|j: int| 0 <= j < tys.len() && res_name_in(#[trigger] tys[j], name)
}

/// The types and the resources of a syscall resolve.
pub open spec fn syscall_resolves(s: Syscall, tys: Seq<Type>, kinds: Seq<Seq<char>>) -> bool {
    &&& forall|i: int| 0 <= i < s.params@.len() ==> ty_resolves(*(#[trigger] s.params@[i]).ty, tys, kinds)
    &&& (s.ret matches Some(r) ==> ty_resolves(r, tys, kinds))
}

/// Number of `false` entries.
pub open spec fn count_false(s: Seq<bool>) -> nat
    decreases s.len(),
{
    if s.len() == 0 {
        0
    } else {
        count_false(s.drop_last()) + if s.last() {
            0nat
        } else {
            1nat
        }
    }
}

proof fn lemma_count_false_set(s: Seq<bool>, i: int)
    requires
        0 <= i < s.len(),
        !s[i],
    ensures
        count_false(s.update(i, true)) + 1 == count_false(s),
    decreases s.len(),
{
    let u = s.update(i, true);
    if i == s.len() - 1 {
        assert(u.drop_last() =~= s.drop_last());
    } else {
        lemma_count_false_set(s.drop_last(), i);
        assert(u.drop_last() =~= s.drop_last().update(i, true));
    }
}

/// Number of a direction: `In` 0, `Out` 1, `InOut` 2.
pub open spec fn dir_index(d: Dir) -> int {
    match d {
        Dir::In => 0,
        Dir::Out => 1,
        Dir::InOut => 2,
    }
}

fn dir_slot(pos: usize, d: Dir) -> (r: usize)
    requires
        pos * 3 + 2 <= usize::MAX,
    ensures
        r == pos * 3 + dir_index(d),
{
    match d {
        Dir::In => pos * 3,
        Dir::Out => pos * 3 + 1,
        Dir::InOut => pos * 3 + 2,
    }
}

/// Position of the type with id `tid` in types sorted by id.
pub fn find_ty(tys: &Vec<Type>, tid: TypeId) -> (r: Option<usize>)
    requires
        tys_sorted(tys@),
    ensures
        r matches Some(i) ==> i < tys@.len() && tys@[i as int].spec_comm().id == tid,
        r is None ==> !has_ty(tys@, tid),
{
    let mut lo: usize = 0;
    let mut hi: usize = tys.len();
    while lo < hi
        invariant
            lo <= hi <= tys@.len(),
            tys_sorted(tys@),
            forall|i: int| 0 <= i < lo ==> tys@[i].spec_comm().id < tid,
            forall|i: int| hi <= i < tys@.len() ==> tys@[i].spec_comm().id > tid,
        decreases hi - lo,
    {
        let mid = lo + (hi - lo) / 2;
        let id = tys[mid].id();
        if id == tid {
            return Some(mid);
        } else if id < tid {
            lo = mid + 1;
        } else {
            hi = mid;
        }
    }
    None
}

/// `b` holds the same elements as `a`, in some order.
pub open spec fn rearranged<T>(a: Seq<T>, b: Seq<T>) -> bool {
    &&& a.len() == b.len()
    &&& forall|i: int| 0 <= i < b.len() ==> a.contains(#[trigger] b[i])
    &&& forall|i: int| 0 <= i < a.len() ==> b.contains(#[trigger] a[i])
}

/// No two syscalls share an id.
pub open spec fn syscall_ids_distinct(s: Seq<Syscall>) -> bool {
    forall|i: int, j: int| 0 <= i < j < s.len() ==> s[i].id != s[j].id
}

/// No two types share an id.
pub open spec fn ty_ids_distinct(tys: Seq<Type>) -> bool {
    forall|i: int, j: int| 0 <= i < j < tys.len() ==> tys[i].spec_comm().id != tys[j].spec_comm().id
}

/// The syscalls sorted by id.
pub fn sort_syscalls(v: Vec<Syscall>) -> (r: Vec<Syscall>)
    requires
        syscall_ids_distinct(v@),
    ensures
        syscalls_sorted(r@),
        rearranged(v@, r@),
{
    let ghost orig = v@;
    let mut rest = v;
    let mut out: Vec<Syscall> = Vec::new();
    while rest.len() > 0
        invariant
            syscall_ids_distinct(orig),
            rest@ == orig.take(rest@.len() as int),
            rest@.len() + out@.len() == orig.len(),
            syscalls_sorted(out@),
            forall|i: int| 0 <= i < out@.len() ==> orig.skip(rest@.len() as int).contains(#[trigger] out@[i]),
            forall|i: int| rest@.len() <= i < orig.len() ==> out@.contains(#[trigger] orig[i]),
        decreases rest@.len(),
    {
        let ghost n = rest@.len() as int;
        let x = rest.pop().unwrap();
        assert(x == orig[n - 1]);
        assert(rest@ =~= orig.take(n - 1));
        let mut p: usize = 0;
        while p < out.len() && out[p].id < x.id
            invariant
                p <= out@.len(),
                forall|i: int| 0 <= i < p ==> out@[i].id < x.id,
            decreases out@.len() - p,
        {
            p = p + 1;
        }
        proof {
            assert forall|i: int| 0 <= i < out@.len() implies out@[i].id != x.id by {
                let k = choose|k: int| 0 <= k < orig.skip(n).len() && orig.skip(n)[k] == out@[i];
                assert(orig[n + k] == out@[i]);
            }
            assert forall|i: int| p <= i < out@.len() implies out@[i].id > x.id by {
                assert(out@[p as int].id >= x.id);
                assert(out@[p as int].id != x.id);
            }
        }
        let ghost old_out = out@;
        out.insert(p, x);
        proof {
            assert(out@ == old_out.insert(p as int, x));
            assert forall|i: int| 0 <= i < out@.len() implies orig.skip(n - 1).contains(#[trigger] out@[i]) by {
                if i == p {
                    assert(orig.skip(n - 1)[0] == x);
                } else {
                    let j = if i < p { i } else { i - 1 };
                    assert(out@[i] == old_out[j]);
                    let k = choose|k: int| 0 <= k < orig.skip(n).len() && orig.skip(n)[k] == old_out[j];
                    assert(orig.skip(n - 1)[k + 1] == old_out[j]);
                }
            }
            assert forall|i: int| n - 1 <= i < orig.len() implies out@.contains(#[trigger] orig[i]) by {
                if i == n - 1 {
                    assert(out@[p as int] == x);
                } else {
                    let k = choose|k: int| 0 <= k < old_out.len() && old_out[k] == orig[i];
                    if k < p {
                        assert(out@[k] == old_out[k]);
                    } else {
                        assert(out@[k + 1] == old_out[k]);
                    }
                }
            }
        }
    }
    proof {
        assert(orig.skip(0) =~= orig);
    }
    out
}

/// The types sorted by id.
pub fn sort_tys(v: Vec<Type>) -> (r: Vec<Type>)
    requires
        ty_ids_distinct(v@),
    ensures
        tys_sorted(r@),
        rearranged(v@, r@),
{
    let ghost orig = v@;
    let mut rest = v;
    let mut out: Vec<Type> = Vec::new();
    while rest.len() > 0
        invariant
            ty_ids_distinct(orig),
            rest@ == orig.take(rest@.len() as int),
            rest@.len() + out@.len() == orig.len(),
            tys_sorted(out@),
            forall|i: int| 0 <= i < out@.len() ==> orig.skip(rest@.len() as int).contains(#[trigger] out@[i]),
            forall|i: int| rest@.len() <= i < orig.len() ==> out@.contains(#[trigger] orig[i]),
        decreases rest@.len(),
    {
        let ghost n = rest@.len() as int;
        let x = rest.pop().unwrap();
        assert(x == orig[n - 1]);
        assert(rest@ =~= orig.take(n - 1));
        let xid = x.id();
        let mut p: usize = 0;
        while p < out.len() && out[p].id() < xid
            invariant
                p <= out@.len(),
                xid == x.spec_comm().id,
                forall|i: int| 0 <= i < p ==> out@[i].spec_comm().id < xid,
            decreases out@.len() - p,
        {
            p = p + 1;
        }
        proof {
            assert forall|i: int| 0 <= i < out@.len() implies out@[i].spec_comm().id != xid by {
                let k = choose|k: int| 0 <= k < orig.skip(n).len() && orig.skip(n)[k] == out@[i];
                assert(orig[n + k] == out@[i]);
            }
            assert forall|i: int| p <= i < out@.len() implies out@[i].spec_comm().id > xid by {
                assert(out@[p as int].spec_comm().id >= xid);
                assert(out@[p as int].spec_comm().id != xid);
            }
        }
        let ghost old_out = out@;
        out.insert(p, x);
        proof {
            assert(out@ == old_out.insert(p as int, x));
            assert forall|i: int| 0 <= i < out@.len() implies orig.skip(n - 1).contains(#[trigger] out@[i]) by {
                if i == p {
                    assert(orig.skip(n - 1)[0] == x);
                } else {
                    let j = if i < p { i } else { i - 1 };
                    assert(out@[i] == old_out[j]);
                    let k = choose|k: int| 0 <= k < orig.skip(n).len() && orig.skip(n)[k] == old_out[j];
                    assert(orig.skip(n - 1)[k + 1] == old_out[j]);
                }
            }
            assert forall|i: int| n - 1 <= i < orig.len() implies out@.contains(#[trigger] orig[i]) by {
                if i == n - 1 {
                    assert(out@[p as int] == x);
                } else {
                    let k = choose|k: int| 0 <= k < old_out.len() && old_out[k] == orig[i];
                    if k < p {
                        assert(out@[k] == old_out[k]);
                    } else {
                        assert(out@[k + 1] == old_out[k]);
                    }
                }
            }
        }
    }
    proof {
        assert(orig.skip(0) =~= orig);
    }
    out
}

proof fn lemma_syscall_resolves_rearranged(s: Syscall, a: Seq<Type>, b: Seq<Type>, kinds: Seq<Seq<char>>)
    requires
        rearranged(a, b),
        syscall_resolves(s, a, kinds),
    ensures
        syscall_resolves(s, b, kinds),
{
    assert forall|i: int| 0 <= i < s.params@.len() implies ty_resolves(*(#[trigger] s.params@[i]).ty, b, kinds) by {
        lemma_resolves_rearranged(*s.params@[i].ty, a, b, kinds);
    }
    if let Some(r) = s.ret {
        lemma_resolves_rearranged(r, a, b, kinds);
    }
}

/// Types that hold the same types resolve the same way.
proof fn lemma_resolves_rearranged(ty: Type, a: Seq<Type>, b: Seq<Type>, kinds: Seq<Seq<char>>)
    requires
        rearranged(a, b),
        ty_resolves(ty, a, kinds),
    ensures
        ty_resolves(ty, b, kinds),
    decreases ty,
{
    match ty {
        Type::Ptr(t) => {
            let i = choose|i: int| 0 <= i < a.len() && a[i].spec_comm().id == t.elem;
            assert(b.contains(a[i]));
            let j = choose|j: int| 0 <= j < b.len() && b[j] == a[i];
            assert(b[j].spec_comm().id == t.elem);
        },
        Type::Array(t) => {
            lemma_array_elem_decreases(t);
            lemma_resolves_rearranged(*t.elem, a, b, kinds);
        },
        Type::Struct(t) => {
            assert forall|i: int| 0 <= i < t.fields@.len() implies ty_resolves(*(#[trigger] t.fields@[i]).ty, b, kinds) by {
                lemma_field_decreases(ty, t.fields@, i);
                lemma_resolves_rearranged(*t.fields@[i].ty, a, b, kinds);
            }
        },
        Type::Union(t) => {
            assert forall|i: int| 0 <= i < t.fields@.len() implies ty_resolves(*(#[trigger] t.fields@[i]).ty, b, kinds) by {
                lemma_field_decreases(ty, t.fields@, i);
                lemma_resolves_rearranged(*t.fields@[i].ty, a, b, kinds);
            }
        },
        _ => {},
    }
}

/// Position of the syscall with id `sid` in syscalls sorted by id.
pub fn find_syscall(syscalls: &Vec<Syscall>, sid: SyscallId) -> (r: Option<usize>)
    requires
        syscalls_sorted(syscalls@),
    ensures
        r matches Some(i) ==> i < syscalls@.len() && syscalls@[i as int].id == sid,
        r is None ==> forall|i: int| 0 <= i < syscalls@.len() ==> syscalls@[i].id != sid,
{
    let mut lo: usize = 0;
    let mut hi: usize = syscalls.len();
    while lo < hi
        invariant
            lo <= hi <= syscalls@.len(),
            syscalls_sorted(syscalls@),
            forall|i: int| 0 <= i < lo ==> syscalls@[i].id < sid,
            forall|i: int| hi <= i < syscalls@.len() ==> syscalls@[i].id > sid,
        decreases hi - lo,
    {
        let mid = lo + (hi - lo) / 2;
        let id = syscalls[mid].id;
        if id == sid {
            return Some(mid);
        } else if id < sid {
            lo = mid + 1;
        } else {
            hi = mid;
        }
    }
    None
}

/// Index of `name` among the resource kinds.
pub fn kind_index(kinds: &Vec<String>, name: &String) -> (r: Option<ResKindId>)
    ensures
        r matches Some(k) ==> k < kinds@.len() && kinds@[k as int]@ == name@ && forall|j: int|
            0 <= j < k ==> kinds@[j]@ != name@,
        r is None ==> !strs_view(kinds@).contains(name@),
{
    let mut i: usize = 0;
    while i < kinds.len()
        invariant
            i <= kinds@.len(),
            forall|j: int| 0 <= j < i ==> kinds@[j]@ != name@,
        decreases kinds.len() - i,
    {
        if kinds[i] == *name {
            return Some(i);
        }
        i = i + 1;
    }
    proof {
        if strs_view(kinds@).contains(name@) {
            let j = choose|j: int| 0 <= j < strs_view(kinds@).len() && strs_view(kinds@)[j] == name@;
            assert(kinds@[j]@ == name@);
        }
    }
    None
}

/// What the resource walk keeps: the kinds consumed, the kinds produced,
/// the structs and unions visited, and which pointee types were followed
/// in which direction (three slots per type).
pub type WalkState = (Set<ResKindId>, Set<ResKindId>, Set<usize>, Seq<bool>);

/// Index of the first resource kind named `name`.
pub open spec fn kind_of(kinds: Seq<String>, name: Seq<char>) -> ResKindId {
    (choose|k: int| 0 <= k < kinds.len() && kinds[k]@ == name && forall|j: int| 0 <= j < k ==> kinds[j]@ != name) as ResKindId
}

/// Position of the type of id `id` among `tys`.
pub open spec fn ty_pos(tys: Seq<Type>, id: TypeId) -> int {
    choose|i: int| 0 <= i < tys.len() && tys[i].spec_comm().id == id
}

/// The fields of a struct or union type.
pub open spec fn fields_of(ty: Type) -> Seq<Field> {
    match ty {
        Type::Struct(s) => s.fields@,
        Type::Union(u) => u.fields@,
        _ => Seq::empty(),
    }
}

/// The walk of the type `ty` met in direction `dir`, from the state `st`:
/// a resource is recorded as produced unless met as an input, and as
/// consumed when met as a required input; a pointer leads to its pointee
/// type in the pointer's own direction, unless that pointee was already
/// followed in that direction; an array leads to its element; a struct or
/// union not visited before leads to its fields, each in its own direction
/// when it has one. `fuel` bounds the pointers followed.
pub open spec fn res_walk(tys: Seq<Type>, kinds: Seq<String>, fuel: nat, ty: Type, dir: Dir, st: WalkState) -> WalkState
    decreases fuel, ty, 1nat, 0nat,
{
    match ty {
        Type::Res(t) => if dir != Dir::In {
            (st.0, st.1.insert(kind_of(kinds, t.name@)), st.2, st.3)
        } else if !t.comm.optional {
            (st.0.insert(kind_of(kinds, t.name@)), st.1, st.2, st.3)
        } else {
            st
        },
        Type::Ptr(t) => {
            let pos = ty_pos(tys, t.elem);
            let slot = pos * 3 + dir_index(t.dir);
            if fuel == 0 || !(0 <= slot < st.3.len()) || st.3[slot] || !(0 <= pos < tys.len()) {
                st
            } else {
                res_walk(tys, kinds, (fuel - 1) as nat, tys[pos], t.dir, (st.0, st.1, st.2, st.3.update(slot, true)))
            }
        },
        Type::Array(t) => {
            proof {
                lemma_array_elem_decreases(t);
            }
            res_walk(tys, kinds, fuel, *t.elem, dir, st)
        },
        Type::Struct(t) => if st.2.contains(t.comm.id) {
            st
        } else {
            fields_walk(tys, kinds, fuel, ty, t.fields@.len(), dir, (st.0, st.1, st.2.insert(t.comm.id), st.3))
        },
        Type::Union(t) => if st.2.contains(t.comm.id) {
            st
        } else {
            fields_walk(tys, kinds, fuel, ty, t.fields@.len(), dir, (st.0, st.1, st.2.insert(t.comm.id), st.3))
        },
        _ => st,
    }
}

/// The walk of the first `k` fields of the struct or union `parent`, one
/// after the other.
pub open spec fn fields_walk(tys: Seq<Type>, kinds: Seq<String>, fuel: nat, parent: Type, k: nat, dir: Dir, st: WalkState) -> WalkState
    decreases fuel, parent, 0nat, k,
{
    let fs = fields_of(parent);
    if k == 0 || k > fs.len() {
        st
    } else {
        proof {
            lemma_field_decreases(parent, fs, k - 1);
        }
        res_walk(
            tys,
            kinds,
            fuel,
            *fs[k - 1].ty,
            field_dir(fs[k - 1], dir),
            fields_walk(tys, kinds, fuel, parent, (k - 1) as nat, dir, st),
        )
    }
}

/// The walk of the first `k` parameters of `s`, each as an input.
pub open spec fn params_walk(tys: Seq<Type>, kinds: Seq<String>, s: Syscall, k: nat, st: WalkState) -> WalkState
    decreases k,
{
    if k == 0 || k > s.params@.len() {
        st
    } else {
        res_walk(
            tys,
            kinds,
            (tys.len() * 3) as nat,
            *s.params@[k - 1].ty,
            Dir::In,
            params_walk(tys, kinds, s, (k - 1) as nat, st),
        )
    }
}

/// The kinds a syscall consumes and produces: its parameters walked as
/// inputs, then its return type as an output, with one shared state.
pub open spec fn res_usage(tys: Seq<Type>, kinds: Seq<String>, s: Syscall) -> (Set<ResKindId>, Set<ResKindId>) {
    let st0: WalkState = (Set::empty(), Set::empty(), Set::empty(), Seq::new((tys.len() * 3) as nat, |i: int| false));
    let st1 = params_walk(tys, kinds, s, s.params@.len(), st0);
    let st2 = match s.ret {
        Some(r) => res_walk(tys, kinds, (tys.len() * 3) as nat, r, Dir::Out, st1),
        None => st1,
    };
    (st2.0, st2.1)
}

pub proof fn lemma_kind_of(kinds: Seq<String>, name: Seq<char>, k: int)
    requires
        0 <= k < kinds.len(),
        k <= usize::MAX,
        kinds[k]@ == name,
        forall|j: int| 0 <= j < k ==> kinds[j]@ != name,
    ensures
        kind_of(kinds, name) == k,
{
    let c = choose|c: int| 0 <= c < kinds.len() && kinds[c]@ == name && forall|j: int| 0 <= j < c ==> kinds[j]@ != name;
    assert(0 <= c < kinds.len() && kinds[c]@ == name && forall|j: int| 0 <= j < c ==> kinds[j]@ != name);
    if c < k {
        assert(kinds[c]@ != name);
    } else if c > k {
        assert(kinds[k]@ != name);
    }
}

proof fn lemma_ty_pos(tys: Seq<Type>, id: TypeId, p: int)
    requires
        tys_sorted(tys),
        0 <= p < tys.len(),
        tys[p].spec_comm().id == id,
    ensures
        ty_pos(tys, id) == p,
{
    let c = ty_pos(tys, id);
    assert(0 <= c < tys.len() && tys[c].spec_comm().id == id);
    if c < p {
        assert(tys[c].spec_comm().id < tys[p].spec_comm().id);
    } else if c > p {
        assert(tys[p].spec_comm().id < tys[c].spec_comm().id);
    }
}

proof fn lemma_count_false_le(s: Seq<bool>)
    ensures
        count_false(s) <= s.len(),
    decreases s.len(),
{
    if s.len() > 0 {
        lemma_count_false_le(s.drop_last());
    }
}

/// Collects the resources a type consumes (`input`) and produces
/// (`output`), following pointers to their pointee types and visiting each
/// struct and union once. A pointee already followed in the same direction
/// is not followed again: that visit would find nothing new.
fn analyze_ty(
    tys: &Vec<Type>,
    kinds: &Vec<String>,
    ty: &Type,
    dir: Dir,
    input: &mut Vec<ResKindId>,
    output: &mut Vec<ResKindId>,
    visited: &mut Vec<usize>,
    followed: &mut Vec<bool>,
    Ghost(fuel): Ghost<nat>,
)
    requires
        tys_sorted(tys@),
        tys@.len() * 3 <= usize::MAX,
        forall|j: int| 0 <= j < tys@.len() ==> ty_resolves(#[trigger] tys@[j], tys@, strs_view(kinds@)),
        ty_resolves(*ty, tys@, strs_view(kinds@)),
        fuel >= count_false(old(followed)@),
        strictly_sorted(old(input)@),
        strictly_sorted(old(output)@),
        strictly_sorted(old(visited)@),
        old(followed)@.len() == tys@.len() * 3,
    ensures
        strictly_sorted(final(input)@),
        strictly_sorted(final(output)@),
        strictly_sorted(final(visited)@),
        final(followed)@.len() == tys@.len() * 3,
        count_false(final(followed)@) <= count_false(old(followed)@),
        old(input)@.to_set().subset_of(final(input)@.to_set()),
        old(output)@.to_set().subset_of(final(output)@.to_set()),
        forall|k: ResKindId| #[trigger] final(input)@.contains(k) && !old(input)@.contains(k) ==> k
            < kinds@.len() && name_occurs(tys@, *ty, kinds@[k as int]@),
        forall|k: ResKindId| #[trigger] final(output)@.contains(k) && !old(output)@.contains(k) ==> k
            < kinds@.len() && name_occurs(tys@, *ty, kinds@[k as int]@),
        ty matches Type::Res(t) ==> (dir != Dir::In ==> exists|k: int|
            0 <= k < final(output)@.len() && kinds@[final(output)@[k] as int]@ == t.name@),
        ty matches Type::Res(t) ==> (dir == Dir::In && !t.comm.optional ==> exists|k: int|
            0 <= k < final(input)@.len() && kinds@[final(input)@[k] as int]@ == t.name@),
        (final(input)@.to_set(), final(output)@.to_set(), final(visited)@.to_set(), final(followed)@) == res_walk(
            tys@,
            kinds@,
            fuel,
            *ty,
            dir,
            (old(input)@.to_set(), old(output)@.to_set(), old(visited)@.to_set(), old(followed)@),
        ),
    decreases count_false(old(followed)@), *ty, 1nat,
{
    match ty {
        Type::Res(t) => {
            let k = kind_index(kinds, &t.name).unwrap();
            proof {
                lemma_kind_of(kinds@, t.name@, k as int);
            }
            if dir != Dir::In {
                insert_sorted(output, k);
                assert(output@.to_set().contains(k));
            } else if !t.comm.optional {
                insert_sorted(input, k);
                assert(input@.to_set().contains(k));
            }
            proof {
                assert forall|x: ResKindId| #[trigger] input@.contains(x) && !old(input)@.contains(x)
                    implies x < kinds@.len() && name_occurs(tys@, *ty, kinds@[x as int]@) by {
                    assert(input@.to_set().contains(x));
                }
                assert forall|x: ResKindId| #[trigger] output@.contains(x) && !old(output)@.contains(x)
                    implies x < kinds@.len() && name_occurs(tys@, *ty, kinds@[x as int]@) by {
                    assert(output@.to_set().contains(x));
                }
            }
        },
        Type::Ptr(t) => {
            let pos = find_ty(tys, t.elem).unwrap();
            proof {
                lemma_ty_pos(tys@, t.elem, pos as int);
            }
            let slot = dir_slot(pos, t.dir);
            if !followed[slot] {
                proof {
                    lemma_count_false_set(followed@, slot as int);
                }
                followed.set(slot, true);
                let ghost mid_in = input@;
                let ghost mid_out = output@;
                analyze_ty(tys, kinds, &tys[pos], t.dir, input, output, visited, followed, Ghost((fuel - 1) as nat));
                proof {
                    assert forall|x: ResKindId| #[trigger] input@.contains(x) && !old(input)@.contains(x)
                        implies x < kinds@.len() && name_occurs(tys@, *ty, kinds@[x as int]@) by {
                        assert(name_occurs(tys@, tys@[pos as int], kinds@[x as int]@));
                        if res_name_in(tys@[pos as int], kinds@[x as int]@) {
                            assert(res_name_in(tys@[pos as int], kinds@[x as int]@));
                        }
                    }
                    assert forall|x: ResKindId| #[trigger] output@.contains(x) && !old(output)@.contains(x)
                        implies x < kinds@.len() && name_occurs(tys@, *ty, kinds@[x as int]@) by {
                        assert(name_occurs(tys@, tys@[pos as int], kinds@[x as int]@));
                        if res_name_in(tys@[pos as int], kinds@[x as int]@) {
                            assert(res_name_in(tys@[pos as int], kinds@[x as int]@));
                        }
                    }
                }
            }
        },
        Type::Array(t) => {
            proof {
                lemma_array_elem_decreases(*t);
            }
            analyze_ty(tys, kinds, &t.elem, dir, input, output, visited, followed, Ghost(fuel));
        },
        Type::Struct(t) => {
            if !contains_sorted(visited, t.comm.id) {
                insert_sorted(visited, t.comm.id);
                analyze_fields(tys, kinds, ty, &t.fields, dir, input, output, visited, followed, Ghost(fuel));
            }
        },
        Type::Union(t) => {
            if !contains_sorted(visited, t.comm.id) {
                insert_sorted(visited, t.comm.id);
                analyze_fields(tys, kinds, ty, &t.fields, dir, input, output, visited, followed, Ghost(fuel));
            }
        },
        _ => {},
    }
}

/// The direction of field `f` inside a value of direction `dir`.
pub open spec fn field_dir(f: Field, dir: Dir) -> Dir {
    match f.dir {
        Some(d) => d,
        None => dir,
    }
}

/// A resource type met in direction `dir` has its kind recorded: among the
/// outputs unless it is an input, among the inputs when it is a required
/// input.
pub open spec fn res_recorded(ty: Type, dir: Dir, input: Seq<ResKindId>, output: Seq<ResKindId>, kinds: Seq<String>) -> bool {
    match ty {
        Type::Res(t) => {
            &&& dir != Dir::In ==> names_contain(output, kinds, t.name@)
            &&& dir == Dir::In && !t.comm.optional ==> names_contain(input, kinds, t.name@)
        },
        _ => true,
    }
}

/// `analyze_ty` on each field of a struct or union `parent`, in the
/// field's own direction when it has one.
fn analyze_fields(
    tys: &Vec<Type>,
    kinds: &Vec<String>,
    parent: &Type,
    fields: &Vec<Field>,
    dir: Dir,
    input: &mut Vec<ResKindId>,
    output: &mut Vec<ResKindId>,
    visited: &mut Vec<usize>,
    followed: &mut Vec<bool>,
    Ghost(fuel): Ghost<nat>,
)
    requires
        (parent matches Type::Struct(s) && s.fields == *fields) || (parent matches Type::Union(u)
            && u.fields == *fields),
        fuel >= count_false(old(followed)@),
        tys_sorted(tys@),
        tys@.len() * 3 <= usize::MAX,
        forall|j: int| 0 <= j < tys@.len() ==> ty_resolves(#[trigger] tys@[j], tys@, strs_view(kinds@)),
        ty_resolves(*parent, tys@, strs_view(kinds@)),
        strictly_sorted(old(input)@),
        strictly_sorted(old(output)@),
        strictly_sorted(old(visited)@),
        old(followed)@.len() == tys@.len() * 3,
    ensures
        strictly_sorted(final(input)@),
        strictly_sorted(final(output)@),
        strictly_sorted(final(visited)@),
        final(followed)@.len() == tys@.len() * 3,
        count_false(final(followed)@) <= count_false(old(followed)@),
        old(input)@.to_set().subset_of(final(input)@.to_set()),
        old(output)@.to_set().subset_of(final(output)@.to_set()),
        forall|k: ResKindId| #[trigger] final(input)@.contains(k) && !old(input)@.contains(k) ==> k
            < kinds@.len() && name_occurs(tys@, *parent, kinds@[k as int]@),
        forall|k: ResKindId| #[trigger] final(output)@.contains(k) && !old(output)@.contains(k) ==> k
            < kinds@.len() && name_occurs(tys@, *parent, kinds@[k as int]@),
        forall|j: int|
            0 <= j < fields@.len() ==> res_recorded(
                *(#[trigger] fields@[j]).ty,
                field_dir(fields@[j], dir),
                final(input)@,
                final(output)@,
                kinds@,
            ),
        (final(input)@.to_set(), final(output)@.to_set(), final(visited)@.to_set(), final(followed)@) == fields_walk(
            tys@,
            kinds@,
            fuel,
            *parent,
            fields@.len(),
            dir,
            (old(input)@.to_set(), old(output)@.to_set(), old(visited)@.to_set(), old(followed)@),
        ),
    decreases count_false(old(followed)@), *parent, 0nat,
{
    let ghost st0: WalkState = (input@.to_set(), output@.to_set(), visited@.to_set(), followed@);
    proof {
        assert(fields_of(*parent) == fields@);
    }
    let mut i: usize = 0;
    while i < fields.len()
        invariant
            (parent matches Type::Struct(s) && s.fields == *fields) || (parent matches Type::Union(u)
                && u.fields == *fields),
            i <= fields@.len(),
            tys_sorted(tys@),
            tys@.len() * 3 <= usize::MAX,
            forall|j: int| 0 <= j < tys@.len() ==> ty_resolves(#[trigger] tys@[j], tys@, strs_view(kinds@)),
            ty_resolves(*parent, tys@, strs_view(kinds@)),
            strictly_sorted(input@),
            strictly_sorted(output@),
            strictly_sorted(visited@),
            followed@.len() == tys@.len() * 3,
            count_false(followed@) <= count_false(old(followed)@),
            old(input)@.to_set().subset_of(input@.to_set()),
            old(output)@.to_set().subset_of(output@.to_set()),
            forall|k: ResKindId| #[trigger] input@.contains(k) && !old(input)@.contains(k) ==> k
                < kinds@.len() && name_occurs(tys@, *parent, kinds@[k as int]@),
            forall|k: ResKindId| #[trigger] output@.contains(k) && !old(output)@.contains(k) ==> k
                < kinds@.len() && name_occurs(tys@, *parent, kinds@[k as int]@),
            forall|j: int|
                0 <= j < i ==> res_recorded(
                    *(#[trigger] fields@[j]).ty,
                    field_dir(fields@[j], dir),
                    input@,
                    output@,
                    kinds@,
                ),
            fuel >= count_false(followed@),
            fields_of(*parent) == fields@,
            (input@.to_set(), output@.to_set(), visited@.to_set(), followed@) == fields_walk(
                tys@,
                kinds@,
                fuel,
                *parent,
                i as nat,
                dir,
                st0,
            ),
        decreases fields.len() - i,
    {
        let f = &fields[i];
        let fdir = match f.dir {
            Some(d) => d,
            None => dir,
        };
        let ghost before_in = input@;
        let ghost before_out = output@;
        proof {
            assert(ty_resolves(*fields@[i as int].ty, tys@, strs_view(kinds@)));
            lemma_field_decreases(*parent, fields@, i as int);
        }
        analyze_ty(tys, kinds, &f.ty, fdir, input, output, visited, followed, Ghost(fuel));
        proof {
            assert(fields_walk(tys@, kinds@, fuel, *parent, (i + 1) as nat, dir, st0) == res_walk(
                tys@,
                kinds@,
                fuel,
                *fields@[i as int].ty,
                field_dir(fields@[i as int], dir),
                fields_walk(tys@, kinds@, fuel, *parent, i as nat, dir, st0),
            ));
            assert forall|k: ResKindId| #[trigger] input@.contains(k) && !old(input)@.contains(k)
                implies k < kinds@.len() && name_occurs(tys@, *parent, kinds@[k as int]@) by {
                if !before_in.contains(k) {
                    if res_name_in(*fields@[i as int].ty, kinds@[k as int]@) {
                        assert(res_name_in(*parent, kinds@[k as int]@));
                    }
                } else {
                    assert(before_in.contains(k));
                }
            }
            assert forall|k: ResKindId| #[trigger] output@.contains(k) && !old(output)@.contains(k)
                implies k < kinds@.len() && name_occurs(tys@, *parent, kinds@[k as int]@) by {
                if !before_out.contains(k) {
                    if res_name_in(*fields@[i as int].ty, kinds@[k as int]@) {
                        assert(res_name_in(*parent, kinds@[k as int]@));
                    }
                } else {
                    assert(before_out.contains(k));
                }
            }
            assert forall|j: int| 0 <= j <= i implies res_recorded(
                *(#[trigger] fields@[j]).ty,
                field_dir(fields@[j], dir),
                input@,
                output@,
                kinds@,
            ) by {
                if j < i {
                    if let Type::Res(t) = *fields@[j].ty {
                        if field_dir(fields@[j], dir) != Dir::In {
                            lemma_names_contain_grow(before_out, output@, kinds@, t.name@);
                        }
                        if field_dir(fields@[j], dir) == Dir::In && !t.comm.optional {
                            lemma_names_contain_grow(before_in, input@, kinds@, t.name@);
                        }
                    }
                }
            }
        }
        i = i + 1;
    }
}

/// A resource of this name occurs in the syscall's parameters, its return
/// type, or one of `tys`.
pub open spec fn name_occurs_in_syscall(tys: Seq<Type>, s: Syscall, name: Seq<char>) -> bool {
    ||| exists|i: int| 0 <= i < s.params@.len() && res_name_in(*(#[trigger] s.params@[i]).ty, name)
    ||| (s.ret matches Some(r) && res_name_in(r, name))
    ||| exists|j: int| 0 <= j < tys.len() && res_name_in(#[trigger] tys[j], name)
}

/// One of the kinds in `ids` is named `name`.
pub open spec fn names_contain(ids: Seq<ResKindId>, kinds: Seq<String>, name: Seq<char>) -> bool {
    exists|k: int| 0 <= k < ids.len() && kinds[ids[k] as int]@ == name
}

proof fn lemma_names_contain_grow(a: Seq<ResKindId>, b: Seq<ResKindId>, kinds: Seq<String>, name: Seq<char>)
    requires
        names_contain(a, kinds, name),
        a.to_set().subset_of(b.to_set()),
    ensures
        names_contain(b, kinds, name),
{
    let k = choose|k: int| 0 <= k < a.len() && kinds[a[k] as int]@ == name;
    assert(a.to_set().contains(a[k]));
    assert(b.to_set().contains(a[k]));
    let m = choose|m: int| 0 <= m < b.len() && b[m] == a[k];
    assert(kinds[b[m] as int]@ == name);
}

/// A non-optional resource type has its kind among the inputs.
pub open spec fn input_recorded(ty: Type, ids: Seq<ResKindId>, kinds: Seq<String>) -> bool {
    match ty {
        Type::Res(t) => t.comm.optional || names_contain(ids, kinds, t.name@),
        _ => true,
    }
}

/// A resource type has its kind among the outputs.
pub open spec fn output_recorded(ty: Type, ids: Seq<ResKindId>, kinds: Seq<String>) -> bool {
    match ty {
        Type::Res(t) => names_contain(ids, kinds, t.name@),
        _ => true,
    }
}

/// The resources a syscall consumes and produces, as sorted kind sets:
/// parameters are analyzed as inputs, the return type as an output.
pub fn analyze_res_usage(syscall: &Syscall, tys: &Vec<Type>, kinds: &Vec<String>) -> (r: (
    Vec<ResKindId>,
    Vec<ResKindId>,
))
    requires
        tys_sorted(tys@),
        tys@.len() * 3 <= usize::MAX,
        forall|j: int| 0 <= j < tys@.len() ==> ty_resolves(#[trigger] tys@[j], tys@, strs_view(kinds@)),
        syscall_resolves(*syscall, tys@, strs_view(kinds@)),
    ensures
        res_usage_ok(tys@, kinds@, *syscall, r.0@, r.1@),
{
    let mut input: Vec<ResKindId> = Vec::new();
    let mut output: Vec<ResKindId> = Vec::new();
    let mut visited: Vec<usize> = Vec::new();
    let mut followed: Vec<bool> = vec![false; tys.len() * 3];
    let ghost fuel: nat = (tys@.len() * 3) as nat;
    let ghost st0: WalkState = (Set::empty(), Set::empty(), Set::empty(), Seq::new(fuel, |i: int| false));
    proof {
        assert(input@.to_set() =~= Set::<ResKindId>::empty());
        assert(output@.to_set() =~= Set::<ResKindId>::empty());
        assert(visited@.to_set() =~= Set::<usize>::empty());
        assert(followed@ =~= Seq::new(fuel, |i: int| false));
        lemma_count_false_le(followed@);
    }
    let mut i: usize = 0;
    while i < syscall.params.len()
        invariant
            fuel == tys@.len() * 3,
            fuel >= count_false(followed@),
            st0 == (Set::<ResKindId>::empty(), Set::<ResKindId>::empty(), Set::<usize>::empty(), Seq::new(fuel, |i: int| false)),
            (input@.to_set(), output@.to_set(), visited@.to_set(), followed@) == params_walk(
                tys@,
                kinds@,
                *syscall,
                i as nat,
                st0,
            ),
            i <= syscall.params@.len(),
            tys_sorted(tys@),
            tys@.len() * 3 <= usize::MAX,
            forall|j: int| 0 <= j < tys@.len() ==> ty_resolves(#[trigger] tys@[j], tys@, strs_view(kinds@)),
            syscall_resolves(*syscall, tys@, strs_view(kinds@)),
            strictly_sorted(input@),
            strictly_sorted(output@),
            strictly_sorted(visited@),
            followed@.len() == tys@.len() * 3,
            forall|k: ResKindId| #[trigger] input@.contains(k) ==> k < kinds@.len() && name_occurs_in_syscall(
                tys@,
                *syscall,
                kinds@[k as int]@,
            ),
            forall|k: ResKindId| #[trigger] output@.contains(k) ==> k < kinds@.len() && name_occurs_in_syscall(
                tys@,
                *syscall,
                kinds@[k as int]@,
            ),
            forall|j: int|
                0 <= j < i ==> input_recorded(*(#[trigger] syscall.params@[j]).ty, input@, kinds@),
        decreases syscall.params.len() - i,
    {
        let ghost before_in = input@;
        let ghost before_out = output@;
        proof {
            assert(ty_resolves(*syscall.params@[i as int].ty, tys@, strs_view(kinds@)));
        }
        analyze_ty(
            tys,
            kinds,
            &syscall.params[i].ty,
            Dir::In,
            &mut input,
            &mut output,
            &mut visited,
            &mut followed,
            Ghost(fuel),
        );
        proof {
            assert(params_walk(tys@, kinds@, *syscall, (i + 1) as nat, st0) == res_walk(
                tys@,
                kinds@,
                fuel,
                *syscall.params@[i as int].ty,
                Dir::In,
                params_walk(tys@, kinds@, *syscall, i as nat, st0),
            ));
            assert forall|k: ResKindId| #[trigger] input@.contains(k) implies k < kinds@.len()
                && name_occurs_in_syscall(tys@, *syscall, kinds@[k as int]@) by {
                if !before_in.contains(k) {
                    let n = kinds@[k as int]@;
                    if res_name_in(*syscall.params@[i as int].ty, n) {
                        assert(res_name_in(*syscall.params@[i as int].ty, n));
                    }
                }
            }
            assert forall|k: ResKindId| #[trigger] output@.contains(k) implies k < kinds@.len()
                && name_occurs_in_syscall(tys@, *syscall, kinds@[k as int]@) by {
                if !before_out.contains(k) {
                    let n = kinds@[k as int]@;
                    if res_name_in(*syscall.params@[i as int].ty, n) {
                        assert(res_name_in(*syscall.params@[i as int].ty, n));
                    }
                }
            }
            assert forall|j: int|
                0 <= j <= i implies input_recorded(*(#[trigger] syscall.params@[j]).ty, input@, kinds@) by {
                if j < i {
                    if let Type::Res(t) = *syscall.params@[j].ty {
                        if !t.comm.optional {
                            lemma_names_contain_grow(before_in, input@, kinds@, t.name@);
                        }
                    }
                }
            }
        }
        i = i + 1;
    }
    match &syscall.ret {
        Some(ret) => {
            let ghost before_in = input@;
            let ghost before_out = output@;
            analyze_ty(tys, kinds, ret, Dir::Out, &mut input, &mut output, &mut visited, &mut followed, Ghost(fuel));
            proof {
                assert forall|j: int|
                    0 <= j < syscall.params@.len() implies input_recorded(*(#[trigger] syscall.params@[j]).ty, input@, kinds@) by {
                    if let Type::Res(t) = *syscall.params@[j].ty {
                        if !t.comm.optional {
                            lemma_names_contain_grow(before_in, input@, kinds@, t.name@);
                        }
                    }
                }
            }
        },
        None => {},
    }
    (input, output)
}

/// The resource types among `tys`, in order.
pub open spec fn res_tys_of(tys: Seq<Type>) -> Seq<ResType>
    decreases tys.len(),
{
    if tys.len() == 0 {
        Seq::empty()
    } else {
        let prev = res_tys_of(tys.drop_last());
        match tys.last() {
            Type::Res(t) => prev.push(t),
            _ => prev,
        }
    }
}

/// Ids of the resource types named `name`, in order.
pub open spec fn ids_named(res: Seq<ResType>, name: Seq<char>) -> Seq<TypeId>
    decreases res.len(),
{
    if res.len() == 0 {
        Seq::empty()
    } else {
        let prev = ids_named(res.drop_last(), name);
        if res.last().name@ == name {
            prev.push(res.last().comm.id)
        } else {
            prev
        }
    }
}

/// Kinds of the resource types named like kind `k`: its super kinds.
pub open spec fn super_kinds(res: Seq<ResType>, kinds: Seq<String>, k: int) -> Set<ResKindId> {
    Set::new(
        |b: ResKindId|
            b < kinds.len() && exists|i: int|
                0 <= i < res.len() && res[i].name@ == kinds[k]@ && #[trigger] has_kind(res[i], kinds, b as int),
    )
}

/// Names of the resource types that have kind `k` among their kinds: its
/// sub kinds.
pub open spec fn sub_kinds(res: Seq<ResType>, kinds: Seq<String>, k: int) -> Set<ResKindId> {
    Set::new(
        |a: ResKindId|
            a < kinds.len() && exists|i: int|
                0 <= i < res.len() && res[i].name@ == kinds[a as int]@ && #[trigger] has_kind(res[i], kinds, k),
    )
}

/// Ids of the syscalls whose kind set (at the same position) holds `k`.
pub open spec fn syscalls_with(syscalls: Seq<Syscall>, sets: Seq<Vec<ResKindId>>, k: ResKindId) -> Set<
    SyscallId,
> {
    Set::new(
        |sid: SyscallId|
            exists|i: int| 0 <= i < syscalls.len() && syscalls[i].id == sid && #[trigger] sets[i]@.contains(k),
    )
}

/// Syscalls that output kind `k`; a kind that no syscall outputs takes
/// the syscalls that output one of its sub kinds.
pub open spec fn output_syscalls(
    syscalls: Seq<Syscall>,
    outs: Seq<Vec<ResKindId>>,
    subs: Set<ResKindId>,
    k: ResKindId,
) -> Set<SyscallId> {
    let direct = syscalls_with(syscalls, outs, k);
    if exists|sid: SyscallId| direct.contains(sid) {
        direct
    } else {
        Set::new(
            |sid: SyscallId|
                exists|s: ResKindId| subs.contains(s) && #[trigger] syscalls_with(syscalls, outs, s).contains(sid),
        )
    }
}

proof fn lemma_same_kind(kinds: Seq<String>, a: int, b: int)
    requires
        kinds_unique(kinds),
        0 <= a < kinds.len(),
        0 <= b < kinds.len(),
        kinds[a]@ == kinds[b]@,
    ensures
        a == b,
{
}

/// The kind `kind_index` found for `name`, when `name` is kind `k`.
proof fn lemma_kind_found(kinds: Seq<String>, name: Seq<char>, ko: Option<usize>, k: int)
    requires
        kinds_unique(kinds),
        0 <= k < kinds.len(),
        kinds[k]@ == name,
        ko matches Some(k0) ==> k0 < kinds.len() && kinds[k0 as int]@ == name,
        ko is None ==> !strs_view(kinds).contains(name),
    ensures
        ko == Some(k as usize),
{
    assert(strs_view(kinds)[k] == kinds[k]@);
    if let Some(k0) = ko {
        lemma_same_kind(kinds, k, k0 as int);
    }
}

/// No resource kind is listed twice.
pub open spec fn kinds_unique(kinds: Seq<String>) -> bool {
    forall|a: int, b: int| 0 <= a < kinds.len() && 0 <= b < kinds.len() && #[trigger] kinds[a]@ == #[trigger] kinds[b]@ ==> a == b
}

/// What `analyze_res_usage` states of the kinds a syscall consumes (`ins`)
/// and produces (`outs`).
pub open spec fn res_usage_ok(tys: Seq<Type>, kinds: Seq<String>, s: Syscall, ins: Seq<ResKindId>, outs: Seq<ResKindId>) -> bool {
    &&& strictly_sorted(ins)
    &&& strictly_sorted(outs)
    &&& forall|k: ResKindId| #[trigger] ins.contains(k) ==> k < kinds.len() && name_occurs_in_syscall(tys, s, kinds[k as int]@)
    &&& forall|k: ResKindId| #[trigger] outs.contains(k) ==> k < kinds.len() && name_occurs_in_syscall(tys, s, kinds[k as int]@)
    &&& forall|i: int| 0 <= i < s.params@.len() ==> input_recorded(*(#[trigger] s.params@[i]).ty, ins, kinds)
    &&& (s.ret matches Some(ret) ==> output_recorded(ret, outs, kinds))
    &&& ins.to_set() == res_usage(tys, kinds, s).0
    &&& outs.to_set() == res_usage(tys, kinds, s).1
}

/// A vector of `n` empty sets.
fn empty_sets(n: usize) -> (r: Vec<Vec<usize>>)
    ensures
        r@.len() == n,
        forall|i: int| 0 <= i < n ==> (#[trigger] r@[i])@.len() == 0,
{
    let mut r: Vec<Vec<usize>> = Vec::new();
    let mut i: usize = 0;
    while i < n
        invariant
            i <= n,
            r@.len() == i,
            forall|j: int| 0 <= j < i ==> (#[trigger] r@[j])@.len() == 0,
        decreases n - i,
    {
        r.push(Vec::new());
        i = i + 1;
    }
    r
}

/// Adds `x` to the set at position `k` of `sets`.
fn insert_at(sets: &mut Vec<Vec<usize>>, k: usize, x: usize)
    requires
        k < old(sets)@.len(),
        strictly_sorted(old(sets)@[k as int]@),
    ensures
        final(sets)@.len() == old(sets)@.len(),
        strictly_sorted(final(sets)@[k as int]@),
        final(sets)@[k as int]@.to_set() == old(sets)@[k as int]@.to_set().insert(x),
        forall|j: int| 0 <= j < old(sets)@.len() && j != k ==> final(sets)@[j] == old(sets)@[j],
{
    let mut cur: Vec<usize> = Vec::new();
    sets.set_and_swap(k, &mut cur);
    insert_sorted(&mut cur, x);
    sets.set(k, cur);
}

/// Removes `x` from the set at position `k` of `sets`.
fn remove_at(sets: &mut Vec<Vec<usize>>, k: usize, x: usize)
    requires
        k < old(sets)@.len(),
        strictly_sorted(old(sets)@[k as int]@),
    ensures
        final(sets)@.len() == old(sets)@.len(),
        strictly_sorted(final(sets)@[k as int]@),
        final(sets)@[k as int]@.to_set() == old(sets)@[k as int]@.to_set().remove(x),
        forall|j: int| 0 <= j < old(sets)@.len() && j != k ==> final(sets)@[j] == old(sets)@[j],
{
    let mut cur: Vec<usize> = Vec::new();
    sets.set_and_swap(k, &mut cur);
    remove_sorted(&mut cur, x);
    sets.set(k, cur);
}

/// Copies of the resource types among `tys`, in order.
fn collect_res_tys(tys: &Vec<Type>) -> (r: Vec<ResType>)
    ensures
        r@.len() == res_tys_of(tys@).len(),
        forall|i: int| 0 <= i < r@.len() ==> res_same(#[trigger] r@[i], res_tys_of(tys@)[i]),
{
    let mut r: Vec<ResType> = Vec::new();
    let mut i: usize = 0;
    while i < tys.len()
        invariant
            i <= tys@.len(),
            r@.len() == res_tys_of(tys@.subrange(0, i as int)).len(),
            forall|j: int| 0 <= j < r@.len() ==> res_same(#[trigger] r@[j], res_tys_of(tys@.subrange(0, i as int))[j]),
        decreases tys.len() - i,
    {
        proof {
            assert(tys@.subrange(0, i + 1).drop_last() =~= tys@.subrange(0, i as int));
        }
        match &tys[i] {
            Type::Res(t) => {
                r.push(t.clone());
            },
            _ => {},
        }
        i = i + 1;
    }
    assert(tys@.subrange(0, tys@.len() as int) =~= tys@);
    r
}

/// Whether kind `b` is among the kinds of `r`.
pub open spec fn has_kind(r: ResType, kinds: Seq<String>, b: int) -> bool {
    strs_view(r.kinds@).contains(kinds[b]@)
}

/// For each resource kind: the ids of the resource types of that name, its
/// super kinds and its sub kinds.
fn map_res_kinds(res: &Vec<ResType>, kinds: &Vec<String>) -> (r: (Vec<Vec<TypeId>>, Vec<Vec<ResKindId>>, Vec<Vec<ResKindId>>))
    requires
        kinds_unique(kinds@),
    ensures
        r.0@.len() == kinds@.len(),
        r.1@.len() == kinds@.len(),
        r.2@.len() == kinds@.len(),
        forall|k: int| 0 <= k < kinds@.len() ==> (#[trigger] r.0@[k])@ == ids_named(res@, kinds@[k]@),
        forall|k: int| 0 <= k < kinds@.len() ==> strictly_sorted((#[trigger] r.1@[k])@) && r.1@[k]@.to_set() == super_kinds(res@, kinds@, k),
        forall|k: int| 0 <= k < kinds@.len() ==> strictly_sorted((#[trigger] r.2@[k])@) && r.2@[k]@.to_set() == sub_kinds(res@, kinds@, k),
{
    let nk = kinds.len();
    let mut names: Vec<Vec<TypeId>> = empty_sets(nk);
    let mut supers: Vec<Vec<ResKindId>> = empty_sets(nk);
    let mut subs: Vec<Vec<ResKindId>> = empty_sets(nk);
    let mut i: usize = 0;
    while i < res.len()
        invariant
            i <= res@.len(),
            nk == kinds@.len(),
            kinds_unique(kinds@),
            names@.len() == nk,
            supers@.len() == nk,
            subs@.len() == nk,
            forall|k: int| 0 <= k < nk ==> (#[trigger] names@[k])@ == ids_named(res@.subrange(0, i as int), kinds@[k]@),
            forall|k: int| 0 <= k < nk ==> strictly_sorted((#[trigger] supers@[k])@),
            forall|k: int| 0 <= k < nk ==> strictly_sorted((#[trigger] subs@[k])@),
            forall|k: int, b: ResKindId| 0 <= k < nk ==> ((#[trigger] supers@[k]@.to_set().contains(b)) <==>
                b < nk && exists|i2: int| 0 <= i2 < i && res@[i2].name@ == kinds@[k]@ && #[trigger] has_kind(res@[i2], kinds@, b as int)),
            forall|k: int, a: ResKindId| 0 <= k < nk ==> ((#[trigger] subs@[k]@.to_set().contains(a)) <==>
                a < nk && exists|i2: int| 0 <= i2 < i && res@[i2].name@ == kinds@[a as int]@ && #[trigger] has_kind(res@[i2], kinds@, k)),
        decreases res.len() - i,
    {
        let r = &res[i];
        let ko = kind_index(kinds, &r.name);
        proof {
            assert(res@.subrange(0, i + 1).drop_last() =~= res@.subrange(0, i as int));
        }
        match ko {
            Some(k) => {
                let mut cur: Vec<TypeId> = Vec::new();
                names.set_and_swap(k, &mut cur);
                cur.push(r.comm.id);
                names.set(k, cur);
            },
            None => {},
        }
        assert forall|k: int| 0 <= k < nk implies (#[trigger] names@[k])@ == ids_named(res@.subrange(0, i + 1), kinds@[k]@) by {
            if kinds@[k]@ == r.name@ {
                lemma_kind_found(kinds@, r.name@, ko, k);
            }
        }
        let mut j: usize = 0;
        while j < r.kinds.len()
            invariant
                i < res@.len(),
                *r == res@[i as int],
                j <= r.kinds@.len(),
                nk == kinds@.len(),
                kinds_unique(kinds@),
                supers@.len() == nk,
                subs@.len() == nk,
                ko matches Some(k) ==> k < nk && kinds@[k as int]@ == r.name@,
                ko is None ==> !strs_view(kinds@).contains(r.name@),
                forall|k: int| 0 <= k < nk ==> strictly_sorted((#[trigger] supers@[k])@),
                forall|k: int| 0 <= k < nk ==> strictly_sorted((#[trigger] subs@[k])@),
                forall|k: int, b: ResKindId| 0 <= k < nk ==> ((#[trigger] supers@[k]@.to_set().contains(b)) <==>
                    b < nk && ((exists|i2: int| 0 <= i2 < i && res@[i2].name@ == kinds@[k]@ && #[trigger] has_kind(res@[i2], kinds@, b as int))
                    || (r.name@ == kinds@[k]@ && exists|j2: int| 0 <= j2 < j && r.kinds@[j2]@ == kinds@[b as int]@))),
                forall|k: int, a: ResKindId| 0 <= k < nk ==> ((#[trigger] subs@[k]@.to_set().contains(a)) <==>
                    a < nk && ((exists|i2: int| 0 <= i2 < i && res@[i2].name@ == kinds@[a as int]@ && #[trigger] has_kind(res@[i2], kinds@, k))
                    || (r.name@ == kinds@[a as int]@ && exists|j2: int| 0 <= j2 < j && r.kinds@[j2]@ == kinds@[k]@))),
            decreases r.kinds.len() - j,
        {
            let bo = kind_index(kinds, &r.kinds[j]);
            match (ko, bo) {
                (Some(k), Some(b)) => {
                    insert_at(&mut supers, k, b);
                    insert_at(&mut subs, b, k);
                },
                _ => {},
            }
            proof {
                assert forall|k2: int, b2: ResKindId| 0 <= k2 < nk implies ((#[trigger] supers@[k2]@.to_set().contains(b2)) <==>
                    b2 < nk && ((exists|i2: int| 0 <= i2 < i && res@[i2].name@ == kinds@[k2]@ && #[trigger] has_kind(res@[i2], kinds@, b2 as int))
                    || (r.name@ == kinds@[k2]@ && exists|j2: int| 0 <= j2 < j + 1 && r.kinds@[j2]@ == kinds@[b2 as int]@))) by {
                    if b2 < nk && r.name@ == kinds@[k2]@ && r.kinds@[j as int]@ == kinds@[b2 as int]@ {
                        lemma_kind_found(kinds@, r.name@, ko, k2);
                        lemma_kind_found(kinds@, r.kinds@[j as int]@, bo, b2 as int);
                    }
                }
                assert forall|k2: int, a2: ResKindId| 0 <= k2 < nk implies ((#[trigger] subs@[k2]@.to_set().contains(a2)) <==>
                    a2 < nk && ((exists|i2: int| 0 <= i2 < i && res@[i2].name@ == kinds@[a2 as int]@ && #[trigger] has_kind(res@[i2], kinds@, k2))
                    || (r.name@ == kinds@[a2 as int]@ && exists|j2: int| 0 <= j2 < j + 1 && r.kinds@[j2]@ == kinds@[k2]@))) by {
                    if a2 < nk && r.name@ == kinds@[a2 as int]@ && r.kinds@[j as int]@ == kinds@[k2]@ {
                        lemma_kind_found(kinds@, r.name@, ko, a2 as int);
                        lemma_kind_found(kinds@, r.kinds@[j as int]@, bo, k2);
                    }
                }
            }
            j = j + 1;
        }
        proof {
            assert forall|k2: int, b2: ResKindId| 0 <= k2 < nk implies ((#[trigger] supers@[k2]@.to_set().contains(b2)) <==>
                b2 < nk && exists|i2: int| 0 <= i2 < i + 1 && res@[i2].name@ == kinds@[k2]@ && #[trigger] has_kind(res@[i2], kinds@, b2 as int)) by {
                if b2 < nk && r.name@ == kinds@[k2]@ && has_kind(res@[i as int], kinds@, b2 as int) {
                    let j2 = choose|j2: int| 0 <= j2 < strs_view(r.kinds@).len() && strs_view(r.kinds@)[j2] == kinds@[b2 as int]@;
                    assert(r.kinds@[j2]@ == kinds@[b2 as int]@);
                }
                if b2 < nk && r.name@ == kinds@[k2]@ && exists|j2: int| 0 <= j2 < r.kinds@.len() && r.kinds@[j2]@ == kinds@[b2 as int]@ {
                    let j2 = choose|j2: int| 0 <= j2 < r.kinds@.len() && r.kinds@[j2]@ == kinds@[b2 as int]@;
                    assert(strs_view(r.kinds@)[j2] == kinds@[b2 as int]@);
                    assert(has_kind(res@[i as int], kinds@, b2 as int));
                }
            }
            assert forall|k2: int, a2: ResKindId| 0 <= k2 < nk implies ((#[trigger] subs@[k2]@.to_set().contains(a2)) <==>
                a2 < nk && exists|i2: int| 0 <= i2 < i + 1 && res@[i2].name@ == kinds@[a2 as int]@ && #[trigger] has_kind(res@[i2], kinds@, k2)) by {
                if a2 < nk && r.name@ == kinds@[a2 as int]@ && has_kind(res@[i as int], kinds@, k2) {
                    let j2 = choose|j2: int| 0 <= j2 < strs_view(r.kinds@).len() && strs_view(r.kinds@)[j2] == kinds@[k2]@;
                    assert(r.kinds@[j2]@ == kinds@[k2]@);
                }
                if a2 < nk && r.name@ == kinds@[a2 as int]@ && exists|j2: int| 0 <= j2 < r.kinds@.len() && r.kinds@[j2]@ == kinds@[k2]@ {
                    let j2 = choose|j2: int| 0 <= j2 < r.kinds@.len() && r.kinds@[j2]@ == kinds@[k2]@;
                    assert(strs_view(r.kinds@)[j2] == kinds@[k2]@);
                    assert(has_kind(res@[i as int], kinds@, k2));
                }
            }
        }
        i = i + 1;
    }
    proof {
        assert(res@.subrange(0, res@.len() as int) =~= res@);
        assert forall|k: int| 0 <= k < nk implies (#[trigger] supers@[k])@.to_set() == super_kinds(res@, kinds@, k) by {
            assert(supers@[k]@.to_set() =~= super_kinds(res@, kinds@, k));
        }
        assert forall|k: int| 0 <= k < nk implies (#[trigger] subs@[k])@.to_set() == sub_kinds(res@, kinds@, k) by {
            assert(subs@[k]@.to_set() =~= sub_kinds(res@, kinds@, k));
        }
    }
    (names, supers, subs)
}

/// The resources each syscall consumes and produces, and for each kind the
/// syscalls that consume it and those that produce it.
fn map_syscall_res(syscalls: &Vec<Syscall>, tys: &Vec<Type>, kinds: &Vec<String>) -> (r: (
    Vec<Vec<ResKindId>>,
    Vec<Vec<ResKindId>>,
    Vec<Vec<SyscallId>>,
    Vec<Vec<SyscallId>>,
))
    requires
        tys_sorted(tys@),
        tys@.len() * 3 <= usize::MAX,
        forall|j: int| 0 <= j < tys@.len() ==> ty_resolves(#[trigger] tys@[j], tys@, strs_view(kinds@)),
        forall|i: int| 0 <= i < syscalls@.len() ==> syscall_resolves(#[trigger] syscalls@[i], tys@, strs_view(kinds@)),
    ensures
        r.0@.len() == syscalls@.len(),
        r.1@.len() == syscalls@.len(),
        forall|i: int| 0 <= i < syscalls@.len() ==> res_usage_ok(tys@, kinds@, #[trigger] syscalls@[i], r.0@[i]@, r.1@[i]@),
        r.2@.len() == kinds@.len(),
        r.3@.len() == kinds@.len(),
        forall|k: int| 0 <= k < kinds@.len() ==> strictly_sorted((#[trigger] r.2@[k])@) && r.2@[k]@.to_set() == syscalls_with(syscalls@, r.0@, k as usize),
        forall|k: int| 0 <= k < kinds@.len() ==> strictly_sorted((#[trigger] r.3@[k])@) && r.3@[k]@.to_set() == syscalls_with(syscalls@, r.1@, k as usize),
{
    let nk = kinds.len();
    let mut sin: Vec<Vec<ResKindId>> = Vec::new();
    let mut sout: Vec<Vec<ResKindId>> = Vec::new();
    let mut in_sys: Vec<Vec<SyscallId>> = empty_sets(nk);
    let mut out_sys: Vec<Vec<SyscallId>> = empty_sets(nk);
    let mut i: usize = 0;
    while i < syscalls.len()
        invariant
            i <= syscalls@.len(),
            nk == kinds@.len(),
            tys_sorted(tys@),
            tys@.len() * 3 <= usize::MAX,
            forall|j: int| 0 <= j < tys@.len() ==> ty_resolves(#[trigger] tys@[j], tys@, strs_view(kinds@)),
            forall|i2: int| 0 <= i2 < syscalls@.len() ==> syscall_resolves(#[trigger] syscalls@[i2], tys@, strs_view(kinds@)),
            sin@.len() == i,
            sout@.len() == i,
            forall|i2: int| 0 <= i2 < i ==> res_usage_ok(tys@, kinds@, #[trigger] syscalls@[i2], sin@[i2]@, sout@[i2]@),
            in_sys@.len() == nk,
            out_sys@.len() == nk,
            forall|k: int| 0 <= k < nk ==> strictly_sorted((#[trigger] in_sys@[k])@),
            forall|k: int| 0 <= k < nk ==> strictly_sorted((#[trigger] out_sys@[k])@),
            forall|k: int, sid: SyscallId| 0 <= k < nk ==> ((#[trigger] in_sys@[k]@.to_set().contains(sid)) <==>
                exists|i2: int| 0 <= i2 < i && syscalls@[i2].id == sid && #[trigger] sin@[i2]@.contains(k as usize)),
            forall|k: int, sid: SyscallId| 0 <= k < nk ==> ((#[trigger] out_sys@[k]@.to_set().contains(sid)) <==>
                exists|i2: int| 0 <= i2 < i && syscalls@[i2].id == sid && #[trigger] sout@[i2]@.contains(k as usize)),
        decreases syscalls.len() - i,
    {
        let sid = syscalls[i].id;
        let (ins, outs) = analyze_res_usage(&syscalls[i], tys, kinds);
        let mut j: usize = 0;
        while j < ins.len()
            invariant
                j <= ins@.len(),
                nk == kinds@.len(),
                i < syscalls@.len(),
                sid == syscalls@[i as int].id,
                sin@.len() == i,
                res_usage_ok(tys@, kinds@, syscalls@[i as int], ins@, outs@),
                in_sys@.len() == nk,
                forall|k: int| 0 <= k < nk ==> strictly_sorted((#[trigger] in_sys@[k])@),
                forall|k: int, sid2: SyscallId| 0 <= k < nk ==> ((#[trigger] in_sys@[k]@.to_set().contains(sid2)) <==>
                    (exists|i2: int| 0 <= i2 < i && syscalls@[i2].id == sid2 && #[trigger] sin@[i2]@.contains(k as usize))
                    || (sid2 == sid && exists|j2: int| 0 <= j2 < j && ins@[j2] == k)),
            decreases ins.len() - j,
        {
            let k = ins[j];
            assert(ins@.contains(k));
            insert_at(&mut in_sys, k, sid);
            j = j + 1;
        }
        let mut j: usize = 0;
        while j < outs.len()
            invariant
                j <= outs@.len(),
                nk == kinds@.len(),
                i < syscalls@.len(),
                sid == syscalls@[i as int].id,
                sout@.len() == i,
                res_usage_ok(tys@, kinds@, syscalls@[i as int], ins@, outs@),
                out_sys@.len() == nk,
                forall|k: int| 0 <= k < nk ==> strictly_sorted((#[trigger] out_sys@[k])@),
                forall|k: int, sid2: SyscallId| 0 <= k < nk ==> ((#[trigger] out_sys@[k]@.to_set().contains(sid2)) <==>
                    (exists|i2: int| 0 <= i2 < i && syscalls@[i2].id == sid2 && #[trigger] sout@[i2]@.contains(k as usize))
                    || (sid2 == sid && exists|j2: int| 0 <= j2 < j && outs@[j2] == k)),
            decreases outs.len() - j,
        {
            let k = outs[j];
            assert(outs@.contains(k));
            insert_at(&mut out_sys, k, sid);
            j = j + 1;
        }
        let ghost old_sin = sin@;
        let ghost old_sout = sout@;
        sin.push(ins);
        sout.push(outs);
        proof {
            assert forall|k: int, sid2: SyscallId| 0 <= k < nk implies ((#[trigger] in_sys@[k]@.to_set().contains(sid2)) <==>
                exists|i2: int| 0 <= i2 < i + 1 && syscalls@[i2].id == sid2 && #[trigger] sin@[i2]@.contains(k as usize)) by {
                if exists|i2: int| 0 <= i2 < i + 1 && syscalls@[i2].id == sid2 && #[trigger] sin@[i2]@.contains(k as usize) {
                    let i2 = choose|i2: int| 0 <= i2 < i + 1 && syscalls@[i2].id == sid2 && #[trigger] sin@[i2]@.contains(k as usize);
                    if i2 < i {
                        assert(old_sin[i2] == sin@[i2]);
                    } else {
                        let j2 = choose|j2: int| 0 <= j2 < sin@[i2]@.len() && sin@[i2]@[j2] == k as usize;
                        assert(ins@[j2] == k);
                    }
                }
                if sid2 == sid && exists|j2: int| 0 <= j2 < ins@.len() && ins@[j2] == k {
                    let j2 = choose|j2: int| 0 <= j2 < ins@.len() && ins@[j2] == k;
                    assert(sin@[i as int]@.contains(k as usize));
                }
                if exists|i2: int| 0 <= i2 < i && syscalls@[i2].id == sid2 && #[trigger] old_sin[i2]@.contains(k as usize) {
                    let i2 = choose|i2: int| 0 <= i2 < i && syscalls@[i2].id == sid2 && #[trigger] old_sin[i2]@.contains(k as usize);
                    assert(sin@[i2] == old_sin[i2]);
                }
            }
            assert forall|k: int, sid2: SyscallId| 0 <= k < nk implies ((#[trigger] out_sys@[k]@.to_set().contains(sid2)) <==>
                exists|i2: int| 0 <= i2 < i + 1 && syscalls@[i2].id == sid2 && #[trigger] sout@[i2]@.contains(k as usize)) by {
                if exists|i2: int| 0 <= i2 < i + 1 && syscalls@[i2].id == sid2 && #[trigger] sout@[i2]@.contains(k as usize) {
                    let i2 = choose|i2: int| 0 <= i2 < i + 1 && syscalls@[i2].id == sid2 && #[trigger] sout@[i2]@.contains(k as usize);
                    if i2 < i {
                        assert(old_sout[i2] == sout@[i2]);
                    } else {
                        let j2 = choose|j2: int| 0 <= j2 < sout@[i2]@.len() && sout@[i2]@[j2] == k as usize;
                        assert(outs@[j2] == k);
                    }
                }
                if sid2 == sid && exists|j2: int| 0 <= j2 < outs@.len() && outs@[j2] == k {
                    let j2 = choose|j2: int| 0 <= j2 < outs@.len() && outs@[j2] == k;
                    assert(sout@[i as int]@.contains(k as usize));
                }
                if exists|i2: int| 0 <= i2 < i && syscalls@[i2].id == sid2 && #[trigger] old_sout[i2]@.contains(k as usize) {
                    let i2 = choose|i2: int| 0 <= i2 < i && syscalls@[i2].id == sid2 && #[trigger] old_sout[i2]@.contains(k as usize);
                    assert(sout@[i2] == old_sout[i2]);
                }
            }
        }
        i = i + 1;
    }
    proof {
        assert forall|k: int| 0 <= k < nk implies (#[trigger] in_sys@[k])@.to_set() == syscalls_with(syscalls@, sin@, k as usize) by {
            assert(in_sys@[k]@.to_set() =~= syscalls_with(syscalls@, sin@, k as usize));
        }
        assert forall|k: int| 0 <= k < nk implies (#[trigger] out_sys@[k])@.to_set() == syscalls_with(syscalls@, sout@, k as usize) by {
            assert(out_sys@[k]@.to_set() =~= syscalls_with(syscalls@, sout@, k as usize));
        }
    }
    (sin, sout, in_sys, out_sys)
}

/// The set at `k` when it is not empty, else the union of the sets at the
/// positions `subs` lists.
pub open spec fn filled_set(direct: Seq<Vec<usize>>, subs: Seq<usize>, k: int) -> Set<usize> {
    if direct[k]@.len() > 0 {
        direct[k]@.to_set()
    } else {
        Set::new(|x: usize| exists|m: int| 0 <= m < subs.len() && #[trigger] direct[subs[m] as int]@.contains(x))
    }
}

/// `a` comes before `b` in the order of strings: at the first position
/// where they differ the character of `a` is smaller, or `a` is a proper
/// prefix of `b`.
pub open spec fn name_lt(a: Seq<char>, b: Seq<char>) -> bool
    decreases a.len(),
{
    if a.len() == 0 {
        b.len() > 0
    } else if b.len() == 0 {
        false
    } else if a[0] != b[0] {
        (a[0] as int) < (b[0] as int)
    } else {
        name_lt(a.drop_first(), b.drop_first())
    }
}

proof fn lemma_name_lt_total(a: Seq<char>, b: Seq<char>)
    requires
        a != b,
    ensures
        name_lt(a, b) || name_lt(b, a),
    decreases a.len(),
{
    if a.len() == 0 && b.len() == 0 {
        assert(a =~= b);
    } else if a.len() > 0 && b.len() > 0 {
        if a[0] == b[0] {
            if a.drop_first() == b.drop_first() {
                assert(a =~= seq![a[0]] + a.drop_first());
                assert(b =~= seq![b[0]] + b.drop_first());
            }
            lemma_name_lt_total(a.drop_first(), b.drop_first());
        } else {
            assert((a[0] as int) != (b[0] as int));
        }
    }
}

proof fn lemma_name_lt_trans(a: Seq<char>, b: Seq<char>, c: Seq<char>)
    requires
        name_lt(a, b),
        name_lt(b, c),
    ensures
        name_lt(a, c),
    decreases a.len(),
{
    if a.len() > 0 && b.len() > 0 && c.len() > 0 && a[0] == b[0] && b[0] == c[0] {
        lemma_name_lt_trans(a.drop_first(), b.drop_first(), c.drop_first());
    }
}

proof fn lemma_name_lt_skip(a: Seq<char>, b: Seq<char>, i: int)
    requires
        0 <= i <= a.len(),
        i <= b.len(),
        forall|j: int| 0 <= j < i ==> a[j] == b[j],
    ensures
        name_lt(a, b) == name_lt(a.skip(i), b.skip(i)),
    decreases i,
{
    if i > 0 {
        assert(a.drop_first().skip(i - 1) =~= a.skip(i));
        assert(b.drop_first().skip(i - 1) =~= b.skip(i));
        lemma_name_lt_skip(a.drop_first(), b.drop_first(), i - 1);
    } else {
        assert(a.skip(0) =~= a);
        assert(b.skip(0) =~= b);
    }
}

/// Whether the string `a` comes before `b` (see `name_lt`).
fn name_less(a: &String, b: &String) -> (r: bool)
    ensures
        r == name_lt(a@, b@),
{
    let x = crate::strings::str_chars(a.as_str());
    let y = crate::strings::str_chars(b.as_str());
    let mut i: usize = 0;
    while i < x.len() && i < y.len() && x[i] == y[i]
        invariant
            x@ == a@,
            y@ == b@,
            i <= x@.len(),
            i <= y@.len(),
            forall|j: int| 0 <= j < i ==> x@[j] == y@[j],
        decreases x.len() - i,
    {
        i = i + 1;
    }
    proof {
        lemma_name_lt_skip(x@, y@, i as int);
    }
    if i == x.len() {
        i < y.len()
    } else if i == y.len() {
        false
    } else {
        proof {
            assert(x@.skip(i as int)[0] == x@[i as int]);
            assert(y@.skip(i as int)[0] == y@[i as int]);
        }
        x[i] < y[i]
    }
}

/// The kinds `ids` come in the order of their names.
pub open spec fn by_name(ids: Seq<ResKindId>, kinds: Seq<String>) -> bool {
    forall|i: int, j: int| 0 <= i < j < ids.len() ==> name_lt(kinds[ids[i] as int]@, kinds[ids[j] as int]@)
}

/// Every list holds kinds below `bound`, in the order of their names.
pub open spec fn lists_by_name(lists: Seq<Vec<ResKindId>>, kinds: Seq<String>, bound: nat) -> bool {
    &&& forall|k: int| 0 <= k < lists.len() ==> by_name((#[trigger] lists[k])@, kinds)
    &&& forall|k: int, m: int| 0 <= k < lists.len() && 0 <= m < lists[k]@.len() ==> (#[trigger] lists[k]@[m]) < bound
}

/// The kinds `v` ordered by their names.
fn sort_by_name(v: Vec<ResKindId>, kinds: &Vec<String>) -> (r: Vec<ResKindId>)
    requires
        strictly_sorted(v@),
        kinds_unique(kinds@),
        forall|m: int| 0 <= m < v@.len() ==> (#[trigger] v@[m]) < kinds@.len(),
    ensures
        by_name(r@, kinds@),
        rearranged(v@, r@),
{
    let ghost orig = v@;
    let mut rest = v;
    let mut out: Vec<ResKindId> = Vec::new();
    while rest.len() > 0
        invariant
            strictly_sorted(orig),
            kinds_unique(kinds@),
            forall|m: int| 0 <= m < orig.len() ==> (#[trigger] orig[m]) < kinds@.len(),
            rest@ == orig.take(rest@.len() as int),
            rest@.len() + out@.len() == orig.len(),
            by_name(out@, kinds@),
            forall|i: int| 0 <= i < out@.len() ==> orig.skip(rest@.len() as int).contains(#[trigger] out@[i]),
            forall|i: int| rest@.len() <= i < orig.len() ==> out@.contains(#[trigger] orig[i]),
        decreases rest@.len(),
    {
        let ghost n = rest@.len() as int;
        let x = rest.pop().unwrap();
        assert(x == orig[n - 1]);
        assert(rest@ =~= orig.take(n - 1));
        let mut p: usize = 0;
        while p < out.len() && name_less(&kinds[out[p]], &kinds[x])
            invariant
                p <= out@.len(),
                x < kinds@.len(),
                forall|m: int| 0 <= m < out@.len() ==> (#[trigger] out@[m]) < kinds@.len(),
                forall|i: int| 0 <= i < p ==> name_lt(kinds@[out@[i] as int]@, kinds@[x as int]@),
            decreases out@.len() - p,
        {
            p = p + 1;
        }
        proof {
            assert forall|i: int| 0 <= i < out@.len() implies out@[i] != x by {
                let k = choose|k: int| 0 <= k < orig.skip(n).len() && orig.skip(n)[k] == out@[i];
                assert(orig[n + k] == out@[i]);
            }
            assert forall|i: int| p <= i < out@.len() implies name_lt(kinds@[x as int]@, kinds@[out@[i] as int]@) by {
                let xp = kinds@[out@[p as int] as int]@;
                let xx = kinds@[x as int]@;
                assert(out@[p as int] != x);
                assert(xp != xx);
                lemma_name_lt_total(xp, xx);
                if i > p {
                    lemma_name_lt_trans(xx, xp, kinds@[out@[i] as int]@);
                }
            }
        }
        let ghost old_out = out@;
        out.insert(p, x);
        proof {
            assert(out@ == old_out.insert(p as int, x));
            assert forall|i: int, j: int| 0 <= i < j < out@.len() implies name_lt(kinds@[out@[i] as int]@, kinds@[out@[j] as int]@) by {
                if i < p && j == p {
                } else if i == p {
                    assert(out@[j] == old_out[j - 1]);
                } else if j < p {
                } else if i < p {
                    assert(out@[j] == old_out[j - 1]);
                    lemma_name_lt_trans(kinds@[old_out[i] as int]@, kinds@[x as int]@, kinds@[old_out[j - 1] as int]@);
                } else {
                    assert(out@[i] == old_out[i - 1]);
                    assert(out@[j] == old_out[j - 1]);
                }
            }
            assert forall|i: int| 0 <= i < out@.len() implies orig.skip(n - 1).contains(#[trigger] out@[i]) by {
                if i == p {
                    assert(orig.skip(n - 1)[0] == x);
                } else {
                    let j = if i < p { i } else { i - 1 };
                    assert(out@[i] == old_out[j]);
                    let k = choose|k: int| 0 <= k < orig.skip(n).len() && orig.skip(n)[k] == old_out[j];
                    assert(orig.skip(n - 1)[k + 1] == old_out[j]);
                }
            }
            assert forall|i: int| n - 1 <= i < orig.len() implies out@.contains(#[trigger] orig[i]) by {
                if i == n - 1 {
                    assert(out@[p as int] == x);
                } else {
                    let k = choose|k: int| 0 <= k < old_out.len() && old_out[k] == orig[i];
                    if k < p {
                        assert(out@[k] == old_out[k]);
                    } else {
                        assert(out@[k + 1] == old_out[k]);
                    }
                }
            }
        }
    }
    proof {
        assert(orig.skip(0) =~= orig);
    }
    out
}

/// Each list of kinds ordered by the kinds' names (see `sort_by_name`).
fn lists_sorted_by_name(lists: Vec<Vec<ResKindId>>, kinds: &Vec<String>) -> (r: Vec<Vec<ResKindId>>)
    requires
        kinds_unique(kinds@),
        forall|k: int| 0 <= k < lists@.len() ==> strictly_sorted((#[trigger] lists@[k])@),
        forall|k: int, m: int| 0 <= k < lists@.len() && 0 <= m < lists@[k]@.len() ==> (#[trigger] lists@[k]@[m]) < kinds@.len(),
    ensures
        r@.len() == lists@.len(),
        lists_by_name(r@, kinds@, kinds@.len()),
        forall|k: int| 0 <= k < lists@.len() ==> (#[trigger] r@[k])@.to_set() == lists@[k]@.to_set(),
{
    let mut out: Vec<Vec<ResKindId>> = Vec::new();
    let mut k: usize = 0;
    while k < lists.len()
        invariant
            k <= lists@.len(),
            out@.len() == k,
            kinds_unique(kinds@),
            forall|k2: int| 0 <= k2 < lists@.len() ==> strictly_sorted((#[trigger] lists@[k2])@),
            forall|k2: int, m: int| 0 <= k2 < lists@.len() && 0 <= m < lists@[k2]@.len() ==> (#[trigger] lists@[k2]@[m]) < kinds@.len(),
            lists_by_name(out@, kinds@, kinds@.len()),
            forall|k2: int| 0 <= k2 < k ==> (#[trigger] out@[k2])@.to_set() == lists@[k2]@.to_set(),
        decreases lists.len() - k,
    {
        let l = lists[k].clone();
        assert(l@ =~= lists@[k as int]@);
        let s = sort_by_name(l, kinds);
        proof {
            assert forall|m: int| 0 <= m < s@.len() implies (#[trigger] s@[m]) < kinds@.len() by {
                assert(lists@[k as int]@.contains(s@[m]));
            }
            assert forall|x: usize| s@.to_set().contains(x) == lists@[k as int]@.to_set().contains(x) by {
                if s@.to_set().contains(x) {
                    let m = choose|m: int| 0 <= m < s@.len() && s@[m] == x;
                    assert(lists@[k as int]@.contains(s@[m]));
                }
                if lists@[k as int]@.to_set().contains(x) {
                    let m = choose|m: int| 0 <= m < lists@[k as int]@.len() && lists@[k as int]@[m] == x;
                    assert(s@.contains(lists@[k as int]@[m]));
                }
            }
            assert(s@.to_set() =~= lists@[k as int]@.to_set());
        }
        out.push(s);
        k = k + 1;
    }
    out
}

/// Gives each kind that no syscall outputs the output syscalls of its sub
/// kinds.
fn fill_outputs(direct: &Vec<Vec<SyscallId>>, subs: &Vec<Vec<ResKindId>>) -> (r: Vec<Vec<SyscallId>>)
    requires
        subs@.len() == direct@.len(),
        forall|k: int| 0 <= k < direct@.len() ==> strictly_sorted((#[trigger] direct@[k])@),
        forall|k: int, m: int| 0 <= k < subs@.len() && 0 <= m < subs@[k]@.len() ==> (#[trigger] subs@[k]@[m]) < direct@.len(),
    ensures
        r@.len() == direct@.len(),
        forall|k: int| 0 <= k < direct@.len() ==> strictly_sorted((#[trigger] r@[k])@) && r@[k]@.to_set() == filled_set(direct@, subs@[k]@, k),
{
    let mut r: Vec<Vec<SyscallId>> = Vec::new();
    let mut k: usize = 0;
    while k < direct.len()
        invariant
            k <= direct@.len(),
            subs@.len() == direct@.len(),
            forall|k2: int| 0 <= k2 < direct@.len() ==> strictly_sorted((#[trigger] direct@[k2])@),
            forall|k2: int, m: int| 0 <= k2 < subs@.len() && 0 <= m < subs@[k2]@.len() ==> (#[trigger] subs@[k2]@[m]) < direct@.len(),
            r@.len() == k,
            forall|k2: int| 0 <= k2 < k ==> strictly_sorted((#[trigger] r@[k2])@) && r@[k2]@.to_set() == filled_set(direct@, subs@[k2]@, k2),
        decreases direct.len() - k,
    {
        if direct[k].len() > 0 {
            let c = direct[k].clone();
            assert(c@ =~= direct@[k as int]@);
            r.push(c);
        } else {
            let mut acc: Vec<SyscallId> = Vec::new();
            let sub = &subs[k];
            let mut m: usize = 0;
            while m < sub.len()
                invariant
                    m <= sub@.len(),
                    *sub == subs@[k as int],
                    k < direct@.len(),
                    forall|k2: int| 0 <= k2 < direct@.len() ==> strictly_sorted((#[trigger] direct@[k2])@),
                    forall|m2: int| 0 <= m2 < sub@.len() ==> (#[trigger] sub@[m2]) < direct@.len(),
                    strictly_sorted(acc@),
                    forall|x: usize| #[trigger] acc@.to_set().contains(x) <==> exists|m2: int| 0 <= m2 < m && #[trigger] direct@[sub@[m2] as int]@.contains(x),
                decreases sub.len() - m,
            {
                let s = sub[m];
                let d = &direct[s];
                let mut t: usize = 0;
                while t < d.len()
                    invariant
                        t <= d@.len(),
                        m < sub@.len(),
                        s == sub@[m as int],
                        *d == direct@[s as int],
                        strictly_sorted(acc@),
                        forall|x: usize| #[trigger] acc@.to_set().contains(x) <==> (exists|m2: int| 0 <= m2 < m && #[trigger] direct@[sub@[m2] as int]@.contains(x))
                            || exists|t2: int| 0 <= t2 < t && d@[t2] == x,
                    decreases d.len() - t,
                {
                    insert_sorted(&mut acc, d[t]);
                    t = t + 1;
                }
                proof {
                    assert forall|x: usize| #[trigger] acc@.to_set().contains(x) <==> exists|m2: int| 0 <= m2 < m + 1 && #[trigger] direct@[sub@[m2] as int]@.contains(x) by {
                        if exists|t2: int| 0 <= t2 < d@.len() && d@[t2] == x {
                            assert(direct@[sub@[m as int] as int]@.contains(x));
                        }
                        if direct@[sub@[m as int] as int]@.contains(x) {
                            let t2 = choose|t2: int| 0 <= t2 < d@.len() && d@[t2] == x;
                        }
                    }
                }
                m = m + 1;
            }
            proof {
                assert(acc@.to_set() =~= filled_set(direct@, subs@[k as int]@, k as int));
            }
            r.push(acc);
        }
        k = k + 1;
    }
    r
}

/// A target: os, architecture, memory layout, syscalls, types and the
/// resources that tie syscalls together.
#[derive(Debug)]
pub struct Target {
    pub os: String,
    pub arch: String,
    pub ptr_sz: u64,
    pub page_sz: u64,
    pub page_num: u64,
    pub le_endian: bool,
    pub special_ptrs: Vec<u64>,
    /// Offset of the executor's data area.
    pub data_offset: u64,
    /// Revision of the description.
    pub revision: String,
    /// All syscalls, sorted by id.
    pub all_syscalls: Vec<Syscall>,
    /// Ids of the enabled syscalls, sorted.
    pub enabled_syscalls: Vec<SyscallId>,
    /// All types, sorted by id.
    pub tys: Vec<Type>,
    /// The resource types, sorted by id.
    pub res_tys: Vec<ResType>,
    /// All resource kinds; a `ResKindId` is an index in this list.
    pub res_kinds: Vec<String>,
    /// For each kind: ids of the resource types of that name.
    pub res_name_mapping: Vec<Vec<TypeId>>,
    /// For each kind: its super kinds.
    pub res_super_ty_mapping: Vec<Vec<ResKindId>>,
    /// For each kind: its sub kinds.
    pub res_sub_ty_mapping: Vec<Vec<ResKindId>>,
    /// For each syscall (by position): the kinds it consumes.
    pub syscall_input_res: Vec<Vec<ResKindId>>,
    /// For each syscall (by position): the kinds it produces.
    pub syscall_output_res: Vec<Vec<ResKindId>>,
    /// For each kind: the enabled syscalls that consume it.
    pub res_input_syscall: Vec<Vec<SyscallId>>,
    /// For each kind: the enabled syscalls that produce it (or one of its
    /// sub kinds, when none produces it).
    pub res_output_syscall: Vec<Vec<SyscallId>>,
}

/// Every set of the vector is strictly sorted and holds ids below `bound`.
pub open spec fn sets_ok(sets: Seq<Vec<usize>>, bound: nat) -> bool {
    &&& forall|k: int| 0 <= k < sets.len() ==> strictly_sorted((#[trigger] sets[k])@)
    &&& forall|k: int, m: int| 0 <= k < sets.len() && 0 <= m < sets[k]@.len() ==> (#[trigger] sets[k]@[m]) < bound
}

/// Every set of the vector is strictly sorted.
pub open spec fn sets_sorted(sets: Seq<Vec<usize>>) -> bool {
    forall|k: int| 0 <= k < sets.len() ==> strictly_sorted((#[trigger] sets[k])@)
}

impl Target {
    /// The structure the lookups rely on.
    pub open spec fn wf(&self) -> bool {
        let nk = self.res_kinds@.len();
        &&& syscalls_sorted(self.all_syscalls@)
        &&& tys_sorted(self.tys@)
        &&& kinds_unique(self.res_kinds@)
        &&& strictly_sorted(self.enabled_syscalls@)
        &&& forall|e: int| 0 <= e < self.enabled_syscalls@.len() ==> self.has_syscall(#[trigger] self.enabled_syscalls@[e])
        &&& self.syscall_input_res@.len() == self.all_syscalls@.len()
        &&& self.syscall_output_res@.len() == self.all_syscalls@.len()
        &&& sets_ok(self.syscall_input_res@, nk)
        &&& sets_ok(self.syscall_output_res@, nk)
        &&& self.res_name_mapping@.len() == nk
        &&& self.res_super_ty_mapping@.len() == nk
        &&& self.res_sub_ty_mapping@.len() == nk
        &&& self.res_input_syscall@.len() == nk
        &&& self.res_output_syscall@.len() == nk
        &&& lists_by_name(self.res_super_ty_mapping@, self.res_kinds@, nk)
        &&& lists_by_name(self.res_sub_ty_mapping@, self.res_kinds@, nk)
        &&& sets_sorted(self.res_input_syscall@)
        &&& sets_sorted(self.res_output_syscall@)
    }

    /// Position of the syscall with id `sid`.
    pub open spec fn syscall_pos(&self, sid: SyscallId) -> int {
        choose|i: int| 0 <= i < self.all_syscalls@.len() && self.all_syscalls@[i].id == sid
    }

    /// Some syscall has id `sid`.
    pub open spec fn has_syscall(&self, sid: SyscallId) -> bool {
        exists|i: int| 0 <= i < self.all_syscalls@.len() && self.all_syscalls@[i].id == sid
    }

    pub fn os(&self) -> (r: &str)
        ensures
            r@ == self.os@,
    {
        self.os.as_str()
    }

    pub fn arch(&self) -> (r: &str)
        ensures
            r@ == self.arch@,
    {
        self.arch.as_str()
    }

    pub fn ptr_sz(&self) -> (r: u64)
        ensures
            r == self.ptr_sz,
    {
        self.ptr_sz
    }
    pub fn page_num(&self) -> (r: u64)
        ensures
            r == self.page_num,
    {
        self.page_num
    }
    pub fn page_sz(&self) -> (r: u64)
        ensures
            r == self.page_sz,
    {
        self.page_sz
    }
    pub fn le_endian(&self) -> (r: bool)
        ensures
            r == self.le_endian,
    {
        self.le_endian
    }
    pub fn data_offset(&self) -> (r: u64)
        ensures
            r == self.data_offset,
    {
        self.data_offset
    }

    pub fn special_ptrs(&self) -> (r: &[u64])
        ensures
            r@ == self.special_ptrs@,
    {
        self.special_ptrs.as_slice()
    }

    pub fn revision(&self) -> (r: &str)
        ensures
            r@ == self.revision@,
    {
        self.revision.as_str()
    }

    /// `os/arch`.
    pub fn target_name(&self) -> (r: String)
        ensures
            r@ == self.os@ + seq!['/'] + self.arch@,
    {
        let mut name = self.os.clone();
        name.append("/");
        name.append(self.arch.as_str());
        proof {
            reveal_strlit("/");
        }
        name
    }

    /// Size of the data memory: the page count times the page size.
    pub fn mem_size(&self) -> (r: u64)
        requires
            self.page_num * self.page_sz <= u64::MAX,
        ensures
            r == self.page_num * self.page_sz,
    {
        self.page_num * self.page_sz
    }

    pub fn enabled_syscalls(&self) -> (r: &[SyscallId])
        ensures
            r@ == self.enabled_syscalls@,
    {
        self.enabled_syscalls.as_slice()
    }

    pub fn all_syscalls(&self) -> (r: &[Syscall])
        ensures
            r@ == self.all_syscalls@,
    {
        self.all_syscalls.as_slice()
    }

    pub fn tys(&self) -> (r: &[Type])
        ensures
            r@ == self.tys@,
    {
        self.tys.as_slice()
    }

    pub fn res_tys(&self) -> (r: &[ResType])
        ensures
            r@ == self.res_tys@,
    {
        self.res_tys.as_slice()
    }

    pub fn res_kinds(&self) -> (r: &[String])
        ensures
            r@ == self.res_kinds@,
    {
        self.res_kinds.as_slice()
    }

    /// Id of the resource kind named `kind`.
    pub fn res_kind_id(&self, kind: &str) -> (r: Option<ResKindId>)
        ensures
            r matches Some(k) ==> k < self.res_kinds@.len() && self.res_kinds@[k as int]@ == kind@,
            r is None ==> !strs_view(self.res_kinds@).contains(kind@),
    {
        let name = kind.to_owned();
        kind_index(&self.res_kinds, &name)
    }

    /// Ids of the resource types named `kind`, if there are any.
    pub fn res_ty_of(&self, kind: &str) -> (r: Option<&[TypeId]>)
        requires
            self.wf(),
        ensures
            r matches Some(ids) ==> exists|k: int|
                0 <= k < self.res_kinds@.len() && self.res_kinds@[k]@ == kind@ && ids@ == self.res_name_mapping@[k]@
                    && ids@.len() > 0,
            r is None ==> forall|k: int|
                0 <= k < self.res_kinds@.len() && self.res_kinds@[k]@ == kind@ ==> self.res_name_mapping@[k]@.len() == 0,
    {
        match self.res_kind_id(kind) {
            Some(k) => {
                if self.res_name_mapping[k].len() > 0 {
                    Some(self.res_name_mapping[k].as_slice())
                } else {
                    proof {
                        assert forall|k2: int| 0 <= k2 < self.res_kinds@.len() && self.res_kinds@[k2]@ == kind@
                            implies self.res_name_mapping@[k2]@.len() == 0 by {
                            lemma_same_kind(self.res_kinds@, k2, k as int);
                        }
                    }
                    None
                }
            },
            None => {
                proof {
                    assert forall|k2: int| 0 <= k2 < self.res_kinds@.len() && self.res_kinds@[k2]@ == kind@
                        implies self.res_name_mapping@[k2]@.len() == 0 by {
                        assert(strs_view(self.res_kinds@)[k2] == kind@);
                    }
                }
                None
            },
        }
    }

    /// Sub kinds of kind `k`, in the order of their names.
    pub fn res_sub_tys(&self, k: ResKindId) -> (r: &[ResKindId])
        requires
            self.wf(),
            k < self.res_kinds@.len(),
        ensures
            r@ == self.res_sub_ty_mapping@[k as int]@,
    {
        self.res_sub_ty_mapping[k].as_slice()
    }

    /// Super kinds of kind `k`, in the order of their names.
    pub fn res_super_tys(&self, k: ResKindId) -> (r: &[ResKindId])
        requires
            self.wf(),
            k < self.res_kinds@.len(),
        ensures
            r@ == self.res_super_ty_mapping@[k as int]@,
    {
        self.res_super_ty_mapping[k].as_slice()
    }

    /// Enabled syscalls that produce kind `k`.
    pub fn res_output_syscall(&self, k: ResKindId) -> (r: &[SyscallId])
        requires
            self.wf(),
            k < self.res_kinds@.len(),
        ensures
            r@ == self.res_output_syscall@[k as int]@,
    {
        self.res_output_syscall[k].as_slice()
    }

    /// Enabled syscalls that consume kind `k`.
    pub fn res_input_syscall(&self, k: ResKindId) -> (r: &[SyscallId])
        requires
            self.wf(),
            k < self.res_kinds@.len(),
        ensures
            r@ == self.res_input_syscall@[k as int]@,
    {
        self.res_input_syscall[k].as_slice()
    }

    /// Kinds the syscall `sid` produces.
    pub fn syscall_output_res(&self, sid: SyscallId) -> (r: &[ResKindId])
        requires
            self.wf(),
            self.has_syscall(sid),
        ensures
            r@ == self.syscall_output_res@[self.syscall_pos(sid)]@,
    {
        let pos = find_syscall(&self.all_syscalls, sid).unwrap();
        proof {
            self.lemma_syscall_pos(sid, pos as int);
        }
        self.syscall_output_res[pos].as_slice()
    }

    /// Kinds the syscall `sid` consumes.
    pub fn syscall_input_res(&self, sid: SyscallId) -> (r: &[ResKindId])
        requires
            self.wf(),
            self.has_syscall(sid),
        ensures
            r@ == self.syscall_input_res@[self.syscall_pos(sid)]@,
    {
        let pos = find_syscall(&self.all_syscalls, sid).unwrap();
        proof {
            self.lemma_syscall_pos(sid, pos as int);
        }
        self.syscall_input_res[pos].as_slice()
    }

    proof fn lemma_syscall_pos(&self, sid: SyscallId, pos: int)
        requires
            syscalls_sorted(self.all_syscalls@),
            0 <= pos < self.all_syscalls@.len(),
            self.all_syscalls@[pos].id == sid,
        ensures
            self.syscall_pos(sid) == pos,
    {
        let p = self.syscall_pos(sid);
        if p < pos {
            assert(self.all_syscalls@[p].id < self.all_syscalls@[pos].id);
        } else if p > pos {
            assert(self.all_syscalls@[pos].id < self.all_syscalls@[p].id);
        }
    }

    /// The type with id `tid`.
    pub fn ty_of(&self, tid: TypeId) -> (r: &Type)
        requires
            self.wf(),
            has_ty(self.tys@, tid),
        ensures
            r.spec_comm().id == tid,
            exists|i: int| 0 <= i < self.tys@.len() && self.tys@[i] == *r,
    {
        let pos = find_ty(&self.tys, tid).unwrap();
        &self.tys[pos]
    }

    /// The syscall with id `sid`.
    pub fn syscall_of(&self, sid: SyscallId) -> (r: &Syscall)
        requires
            self.wf(),
            self.has_syscall(sid),
        ensures
            *r == self.all_syscalls@[self.syscall_pos(sid)],
            r.id == sid,
    {
        let pos = find_syscall(&self.all_syscalls, sid).unwrap();
        proof {
            self.lemma_syscall_pos(sid, pos as int);
        }
        &self.all_syscalls[pos]
    }

    /// The last syscall named `name`, if any.
    pub fn syscall_of_name(&self, name: &str) -> (r: Option<&Syscall>)
        ensures
            r matches Some(s) ==> exists|i: int|
                0 <= i < self.all_syscalls@.len() && self.all_syscalls@[i] == *s && s.name@ == name@
                    && forall|j: int| i < j < self.all_syscalls@.len() ==> self.all_syscalls@[j].name@ != name@,
            r is None ==> forall|i: int| 0 <= i < self.all_syscalls@.len() ==> self.all_syscalls@[i].name@ != name@,
    {
        let wanted = name.to_owned();
        let mut i: usize = self.all_syscalls.len();
        while i > 0
            invariant
                i <= self.all_syscalls@.len(),
                wanted@ == name@,
                forall|j: int| i <= j < self.all_syscalls@.len() ==> self.all_syscalls@[j].name@ != name@,
            decreases i,
        {
            i = i - 1;
            if self.all_syscalls[i].name == wanted {
                let s = &self.all_syscalls[i];
                proof {
                    assert(self.all_syscalls@[i as int] == *s && s.name@ == name@ && forall|j: int|
                        i < j < self.all_syscalls@.len() ==> self.all_syscalls@[j].name@ != name@);
                }
                return Some(s);
            }
        }
        None
    }

    /// Disables syscall `sid`: drops it from the enabled syscalls and from
    /// the syscalls consuming or producing the kinds it consumes or
    /// produces. Gives back the syscall if it was enabled.
    pub fn disable_syscall(&mut self, sid: SyscallId) -> (r: Option<&Syscall>)
        requires
            old(self).wf(),
        ensures
            final(self).wf(),
            same_description(*final(self), *old(self)),
            final(self).enabled_syscalls@ == without(old(self).enabled_syscalls@, sid),
            forall|k: int| 0 <= k < old(self).res_kinds@.len() ==> (#[trigger] final(self).res_input_syscall@[k])@ == (
                if r is Some && old(self).syscall_input_res@[old(self).syscall_pos(sid)]@.contains(k as usize) {
                    without(old(self).res_input_syscall@[k]@, sid)
                } else {
                    old(self).res_input_syscall@[k]@
                }),
            forall|k: int| 0 <= k < old(self).res_kinds@.len() ==> (#[trigger] final(self).res_output_syscall@[k])@ == (
                if r is Some && old(self).syscall_output_res@[old(self).syscall_pos(sid)]@.contains(k as usize) {
                    without(old(self).res_output_syscall@[k]@, sid)
                } else {
                    old(self).res_output_syscall@[k]@
                }),
            r is Some <==> old(self).enabled_syscalls@.contains(sid),
            r matches Some(s) ==> *s == old(self).all_syscalls@[old(self).syscall_pos(sid)] && s.id == sid,
            final(self).enabled_syscalls@.to_set() == old(self).enabled_syscalls@.to_set().remove(sid),
            forall|k: int| 0 <= k < old(self).res_kinds@.len() ==> (#[trigger] final(self).res_input_syscall@[k])@.to_set() == (
                if r is Some && old(self).syscall_input_res@[old(self).syscall_pos(sid)]@.contains(k as usize) {
                    old(self).res_input_syscall@[k]@.to_set().remove(sid)
                } else {
                    old(self).res_input_syscall@[k]@.to_set()
                }),
            forall|k: int| 0 <= k < old(self).res_kinds@.len() ==> (#[trigger] final(self).res_output_syscall@[k])@.to_set() == (
                if r is Some && old(self).syscall_output_res@[old(self).syscall_pos(sid)]@.contains(k as usize) {
                    old(self).res_output_syscall@[k]@.to_set().remove(sid)
                } else {
                    old(self).res_output_syscall@[k]@.to_set()
                }),
            final(self).all_syscalls == old(self).all_syscalls,
            final(self).tys == old(self).tys,
            final(self).res_kinds == old(self).res_kinds,
            final(self).syscall_input_res == old(self).syscall_input_res,
            final(self).syscall_output_res == old(self).syscall_output_res,
            final(self).res_super_ty_mapping == old(self).res_super_ty_mapping,
            final(self).res_sub_ty_mapping == old(self).res_sub_ty_mapping,
            final(self).res_name_mapping == old(self).res_name_mapping,
    {
        if !contains_sorted(&self.enabled_syscalls, sid) {
            proof {
                assert(old(self).enabled_syscalls@.to_set().remove(sid) =~= old(self).enabled_syscalls@.to_set());
            }
            return None;
        }
        proof {
            let e = choose|e: int| 0 <= e < self.enabled_syscalls@.len() && self.enabled_syscalls@[e] == sid;
            assert(self.enabled_syscalls@[e] == sid);
        }
        let pos = find_syscall(&self.all_syscalls, sid).unwrap();
        proof {
            self.lemma_syscall_pos(sid, pos as int);
        }
        let nk = self.res_kinds.len();
        let ins = self.syscall_input_res[pos].clone();
        assert(ins@ =~= self.syscall_input_res@[pos as int]@);
        let mut m: usize = 0;
        while m < ins.len()
            invariant
                m <= ins@.len(),
                nk == self.res_kinds@.len(),
                ins@ == old(self).syscall_input_res@[pos as int]@,
                forall|m2: int| 0 <= m2 < ins@.len() ==> (#[trigger] ins@[m2]) < nk,
                self.res_input_syscall@.len() == nk,
                sets_sorted(self.res_input_syscall@),
                forall|k: int| 0 <= k < nk ==> (#[trigger] self.res_input_syscall@[k])@.to_set() == (
                    if exists|m2: int| 0 <= m2 < m && ins@[m2] == k {
                        old(self).res_input_syscall@[k]@.to_set().remove(sid)
                    } else {
                        old(self).res_input_syscall@[k]@.to_set()
                    }),
                same_description(*self, *old(self)),
                self.all_syscalls == old(self).all_syscalls,
                self.tys == old(self).tys,
                self.res_kinds == old(self).res_kinds,
                self.enabled_syscalls == old(self).enabled_syscalls,
                self.syscall_input_res == old(self).syscall_input_res,
                self.syscall_output_res == old(self).syscall_output_res,
                self.res_output_syscall == old(self).res_output_syscall,
                self.res_super_ty_mapping == old(self).res_super_ty_mapping,
                self.res_sub_ty_mapping == old(self).res_sub_ty_mapping,
                self.res_name_mapping == old(self).res_name_mapping,
            decreases ins.len() - m,
        {
            let k = ins[m];
            remove_at(&mut self.res_input_syscall, k, sid);
            proof {
                assert forall|k2: int| 0 <= k2 < nk implies (#[trigger] self.res_input_syscall@[k2])@.to_set() == (
                    if exists|m2: int| 0 <= m2 < m + 1 && ins@[m2] == k2 {
                        old(self).res_input_syscall@[k2]@.to_set().remove(sid)
                    } else {
                        old(self).res_input_syscall@[k2]@.to_set()
                    }) by {
                    if k2 == k {
                        assert(ins@[m as int] == k2);
                        assert(old(self).res_input_syscall@[k2]@.to_set().remove(sid).remove(sid) =~= old(self).res_input_syscall@[k2]@.to_set().remove(sid));
                    }
                }
            }
            m = m + 1;
        }
        let ghost in_after = self.res_input_syscall;
        let outs = self.syscall_output_res[pos].clone();
        assert(outs@ =~= self.syscall_output_res@[pos as int]@);
        let mut m: usize = 0;
        while m < outs.len()
            invariant
                m <= outs@.len(),
                nk == self.res_kinds@.len(),
                outs@ == old(self).syscall_output_res@[pos as int]@,
                forall|m2: int| 0 <= m2 < outs@.len() ==> (#[trigger] outs@[m2]) < nk,
                self.res_output_syscall@.len() == nk,
                sets_sorted(self.res_output_syscall@),
                forall|k: int| 0 <= k < nk ==> (#[trigger] self.res_output_syscall@[k])@.to_set() == (
                    if exists|m2: int| 0 <= m2 < m && outs@[m2] == k {
                        old(self).res_output_syscall@[k]@.to_set().remove(sid)
                    } else {
                        old(self).res_output_syscall@[k]@.to_set()
                    }),
                same_description(*self, *old(self)),
                self.all_syscalls == old(self).all_syscalls,
                self.tys == old(self).tys,
                self.res_kinds == old(self).res_kinds,
                self.enabled_syscalls == old(self).enabled_syscalls,
                self.syscall_input_res == old(self).syscall_input_res,
                self.syscall_output_res == old(self).syscall_output_res,
                self.res_input_syscall == in_after,
                self.res_super_ty_mapping == old(self).res_super_ty_mapping,
                self.res_sub_ty_mapping == old(self).res_sub_ty_mapping,
                self.res_name_mapping == old(self).res_name_mapping,
            decreases outs.len() - m,
        {
            let k = outs[m];
            remove_at(&mut self.res_output_syscall, k, sid);
            proof {
                assert forall|k2: int| 0 <= k2 < nk implies (#[trigger] self.res_output_syscall@[k2])@.to_set() == (
                    if exists|m2: int| 0 <= m2 < m + 1 && outs@[m2] == k2 {
                        old(self).res_output_syscall@[k2]@.to_set().remove(sid)
                    } else {
                        old(self).res_output_syscall@[k2]@.to_set()
                    }) by {
                    if k2 == k {
                        assert(outs@[m as int] == k2);
                        assert(old(self).res_output_syscall@[k2]@.to_set().remove(sid).remove(sid) =~= old(self).res_output_syscall@[k2]@.to_set().remove(sid));
                    }
                }
            }
            m = m + 1;
        }
        let ghost before = self.enabled_syscalls@;
        remove_sorted(&mut self.enabled_syscalls, sid);
        proof {
            assert forall|e: int| 0 <= e < self.enabled_syscalls@.len() implies self.has_syscall(#[trigger] self.enabled_syscalls@[e]) by {
                assert(self.enabled_syscalls@.to_set().contains(self.enabled_syscalls@[e]));
                assert(before.to_set().contains(self.enabled_syscalls@[e]));
                assert(before.contains(self.enabled_syscalls@[e]));
                let e2 = choose|e2: int| 0 <= e2 < before.len() && before[e2] == self.enabled_syscalls@[e];
                assert(before[e2] == old(self).enabled_syscalls@[e2]);
                assert(old(self).has_syscall(old(self).enabled_syscalls@[e2]));
                let i = choose|i: int| 0 <= i < old(self).all_syscalls@.len() && old(self).all_syscalls@[i].id == old(self).enabled_syscalls@[e2];
                assert(self.all_syscalls@[i].id == self.enabled_syscalls@[e]);
            }
            assert forall|k: int| 0 <= k < nk implies (#[trigger] self.res_input_syscall@[k])@.to_set() == (
                if old(self).syscall_input_res@[old(self).syscall_pos(sid)]@.contains(k as usize) {
                    old(self).res_input_syscall@[k]@.to_set().remove(sid)
                } else {
                    old(self).res_input_syscall@[k]@.to_set()
                }) by {
                if ins@.contains(k as usize) {
                    let m2 = choose|m2: int| 0 <= m2 < ins@.len() && ins@[m2] == k as usize;
                }
            }
            assert forall|k: int| 0 <= k < nk implies (#[trigger] self.res_output_syscall@[k])@.to_set() == (
                if old(self).syscall_output_res@[old(self).syscall_pos(sid)]@.contains(k as usize) {
                    old(self).res_output_syscall@[k]@.to_set().remove(sid)
                } else {
                    old(self).res_output_syscall@[k]@.to_set()
                }) by {
                if outs@.contains(k as usize) {
                    let m2 = choose|m2: int| 0 <= m2 < outs@.len() && outs@[m2] == k as usize;
                }
            }
            assert forall|k: int| 0 <= k < nk implies (#[trigger] self.res_input_syscall@[k])@ == (
                if old(self).syscall_input_res@[old(self).syscall_pos(sid)]@.contains(k as usize) {
                    without(old(self).res_input_syscall@[k]@, sid)
                } else {
                    old(self).res_input_syscall@[k]@
                }) by {
                let o = old(self).res_input_syscall@[k]@;
                assert(strictly_sorted(o));
                assert(strictly_sorted(self.res_input_syscall@[k]@));
                lemma_without(o, sid);
                if old(self).syscall_input_res@[old(self).syscall_pos(sid)]@.contains(k as usize) {
                    lemma_sorted_set_eq(self.res_input_syscall@[k]@, without(o, sid));
                } else {
                    lemma_sorted_set_eq(self.res_input_syscall@[k]@, o);
                }
            }
            assert forall|k: int| 0 <= k < nk implies (#[trigger] self.res_output_syscall@[k])@ == (
                if old(self).syscall_output_res@[old(self).syscall_pos(sid)]@.contains(k as usize) {
                    without(old(self).res_output_syscall@[k]@, sid)
                } else {
                    old(self).res_output_syscall@[k]@
                }) by {
                let o = old(self).res_output_syscall@[k]@;
                assert(strictly_sorted(o));
                assert(strictly_sorted(self.res_output_syscall@[k]@));
                lemma_without(o, sid);
                if old(self).syscall_output_res@[old(self).syscall_pos(sid)]@.contains(k as usize) {
                    lemma_sorted_set_eq(self.res_output_syscall@[k]@, without(o, sid));
                } else {
                    lemma_sorted_set_eq(self.res_output_syscall@[k]@, o);
                }
            }
        }
        Some(&self.all_syscalls[pos])
    }
}

/// The fields of `a` and `b` that disabling a syscall leaves alone are the
/// same: everything but the enabled syscalls and the syscalls consuming and
/// producing each kind.
pub open spec fn same_description(a: Target, b: Target) -> bool {
    &&& a.os == b.os
    &&& a.arch == b.arch
    &&& a.ptr_sz == b.ptr_sz
    &&& a.page_sz == b.page_sz
    &&& a.page_num == b.page_num
    &&& a.le_endian == b.le_endian
    &&& a.special_ptrs == b.special_ptrs
    &&& a.data_offset == b.data_offset
    &&& a.revision == b.revision
    &&& a.all_syscalls == b.all_syscalls
    &&& a.tys == b.tys
    &&& a.res_tys == b.res_tys
    &&& a.res_kinds == b.res_kinds
    &&& a.res_name_mapping == b.res_name_mapping
    &&& a.res_super_ty_mapping == b.res_super_ty_mapping
    &&& a.res_sub_ty_mapping == b.res_sub_ty_mapping
    &&& a.syscall_input_res == b.syscall_input_res
    &&& a.syscall_output_res == b.syscall_output_res
}

/// Builder of `Target`.
#[derive(Debug)]
pub struct TargetBuilder {
    pub os: Option<String>,
    pub arch: Option<String>,
    pub ptr_sz: Option<u64>,
    pub page_sz: Option<u64>,
    pub page_num: Option<u64>,
    pub data_offset: Option<u64>,
    pub le_endian: bool,
    pub special_ptrs: Vec<u64>,
    pub revision: Option<String>,
    pub syscalls: Vec<Syscall>,
    pub tys: Vec<Type>,
    pub res_kinds: Vec<String>,
}

impl TargetBuilder {
    pub fn new() -> (r: Self)
        ensures
            r.os is None,
            r.arch is None,
            r.ptr_sz is None,
            r.page_sz is None,
            r.page_num is None,
            r.data_offset is None,
            !r.le_endian,
            r.special_ptrs@.len() == 0,
            r.revision is None,
            r.syscalls@.len() == 0,
            r.tys@.len() == 0,
            r.res_kinds@.len() == 0,
    {
        TargetBuilder {
            os: None,
            arch: None,
            ptr_sz: None,
            page_sz: None,
            page_num: None,
            data_offset: None,
            le_endian: false,
            special_ptrs: Vec::new(),
            revision: None,
            syscalls: Vec::new(),
            tys: Vec::new(),
            res_kinds: Vec::new(),
        }
    }

    pub fn os(&mut self, os: String) -> (r: &mut Self)
        ensures
            *r == (TargetBuilder { os: Some(os), ..*old(self) }),
            *final(self) == *final(r),
    {
        self.os = Some(os);
        self
    }
    pub fn arch(&mut self, arch: String) -> (r: &mut Self)
        ensures
            *r == (TargetBuilder { arch: Some(arch), ..*old(self) }),
            *final(self) == *final(r),
    {
        self.arch = Some(arch);
        self
    }
    pub fn ptr_sz(&mut self, ptr_sz: u64) -> (r: &mut Self)
        ensures
            *r == (TargetBuilder { ptr_sz: Some(ptr_sz), ..*old(self) }),
            *final(self) == *final(r),
    {
        self.ptr_sz = Some(ptr_sz);
        self
    }
    pub fn page_sz(&mut self, page_sz: u64) -> (r: &mut Self)
        ensures
            *r == (TargetBuilder { page_sz: Some(page_sz), ..*old(self) }),
            *final(self) == *final(r),
    {
        self.page_sz = Some(page_sz);
        self
    }
    pub fn page_num(&mut self, page_num: u64) -> (r: &mut Self)
        ensures
            *r == (TargetBuilder { page_num: Some(page_num), ..*old(self) }),
            *final(self) == *final(r),
    {
        self.page_num = Some(page_num);
        self
    }
    pub fn le_endian(&mut self, le_endian: bool) -> (r: &mut Self)
        ensures
            *r == (TargetBuilder { le_endian: le_endian, ..*old(self) }),
            *final(self) == *final(r),
    {
        self.le_endian = le_endian;
        self
    }
    pub fn revision(&mut self, revision: String) -> (r: &mut Self)
        ensures
            *r == (TargetBuilder { revision: Some(revision), ..*old(self) }),
            *final(self) == *final(r),
    {
        self.revision = Some(revision);
        self
    }
    pub fn special_ptrs(&mut self, special_ptrs: Vec<u64>) -> (r: &mut Self)
        ensures
            *r == (TargetBuilder { special_ptrs: special_ptrs, ..*old(self) }),
            *final(self) == *final(r),
    {
        self.special_ptrs = special_ptrs;
        self
    }
    pub fn data_offset(&mut self, data_offset: u64) -> (r: &mut Self)
        ensures
            *r == (TargetBuilder { data_offset: Some(data_offset), ..*old(self) }),
            *final(self) == *final(r),
    {
        self.data_offset = Some(data_offset);
        self
    }
    pub fn syscalls(&mut self, syscalls: Vec<Syscall>) -> (r: &mut Self)
        ensures
            *r == (TargetBuilder { syscalls: syscalls, ..*old(self) }),
            *final(self) == *final(r),
    {
        self.syscalls = syscalls;
        self
    }
    pub fn tys(&mut self, tys: Vec<Type>) -> (r: &mut Self)
        ensures
            *r == (TargetBuilder { tys: tys, ..*old(self) }),
            *final(self) == *final(r),
    {
        self.tys = tys;
        self
    }
    pub fn res_kinds(&mut self, res_kinds: Vec<String>) -> (r: &mut Self)
        ensures
            *r == (TargetBuilder { res_kinds: res_kinds, ..*old(self) }),
            *final(self) == *final(r),
    {
        self.res_kinds = res_kinds;
        self
    }

    /// The description is complete and consistent: the required fields are
    /// set, no two syscalls and no two types share an id, resource kinds are
    /// distinct, and the resources and pointers of every type and syscall
    /// resolve.
    pub open spec fn description_ok(&self) -> bool {
        &&& self.os is Some
        &&& self.arch is Some
        &&& self.ptr_sz is Some
        &&& self.page_sz is Some
        &&& self.page_num is Some
        &&& self.revision is Some
        &&& syscall_ids_distinct(self.syscalls@)
        &&& ty_ids_distinct(self.tys@)
        &&& self.tys@.len() * 3 <= usize::MAX
        &&& kinds_unique(self.res_kinds@)
        &&& forall|j: int| 0 <= j < self.tys@.len() ==> ty_resolves(#[trigger] self.tys@[j], self.tys@, strs_view(self.res_kinds@))
        &&& forall|i: int| 0 <= i < self.syscalls@.len() ==> syscall_resolves(#[trigger] self.syscalls@[i], self.tys@, strs_view(self.res_kinds@))
    }

    /// Builds the target: the syscalls and the types sorted by id, all
    /// syscalls enabled, the resource types collected
    /// from the types, the kinds each syscall consumes and produces found by
    /// `analyze_res_usage`, and for each kind its super and sub kinds and
    /// the syscalls that consume and produce it. A kind no syscall produces
    /// takes the producers of its sub kinds.
    pub fn build(self) -> (r: Target)
        requires
            self.description_ok(),
        ensures
            r.wf(),
            r.os == self.os->0,
            r.arch == self.arch->0,
            r.ptr_sz == self.ptr_sz->0,
            r.page_sz == self.page_sz->0,
            r.page_num == self.page_num->0,
            r.le_endian == self.le_endian,
            r.special_ptrs == self.special_ptrs,
            r.data_offset == (match self.data_offset {
                Some(d) => d,
                None => 0,
            }),
            r.revision == self.revision->0,
            syscalls_sorted(r.all_syscalls@),
            rearranged(self.syscalls@, r.all_syscalls@),
            r.enabled_syscalls@ == r.all_syscalls@.map_values(|s: Syscall| s.id),
            tys_sorted(r.tys@),
            rearranged(self.tys@, r.tys@),
            r.res_kinds == self.res_kinds,
            r.res_tys@.len() == res_tys_of(r.tys@).len(),
            forall|i: int| 0 <= i < r.res_tys@.len() ==> res_same(#[trigger] r.res_tys@[i], res_tys_of(r.tys@)[i]),
            forall|k: int| 0 <= k < r.res_kinds@.len() ==> (#[trigger] r.res_name_mapping@[k])@ == ids_named(r.res_tys@, r.res_kinds@[k]@),
            forall|k: int| 0 <= k < r.res_kinds@.len() ==> (#[trigger] r.res_super_ty_mapping@[k])@.to_set() == super_kinds(r.res_tys@, r.res_kinds@, k),
            forall|k: int| 0 <= k < r.res_kinds@.len() ==> (#[trigger] r.res_sub_ty_mapping@[k])@.to_set() == sub_kinds(r.res_tys@, r.res_kinds@, k),
            lists_by_name(r.res_super_ty_mapping@, r.res_kinds@, r.res_kinds@.len()),
            lists_by_name(r.res_sub_ty_mapping@, r.res_kinds@, r.res_kinds@.len()),
            forall|i: int| 0 <= i < r.all_syscalls@.len() ==> res_usage_ok(r.tys@, r.res_kinds@, #[trigger] r.all_syscalls@[i], r.syscall_input_res@[i]@, r.syscall_output_res@[i]@),
            forall|k: int| 0 <= k < r.res_kinds@.len() ==> (#[trigger] r.res_input_syscall@[k])@.to_set() == syscalls_with(r.all_syscalls@, r.syscall_input_res@, k as usize),
            forall|k: int| 0 <= k < r.res_kinds@.len() ==> (#[trigger] r.res_output_syscall@[k])@.to_set() == output_syscalls(
                r.all_syscalls@,
                r.syscall_output_res@,
                sub_kinds(r.res_tys@, r.res_kinds@, k),
                k as usize,
            ),
    {
        let ghost orig_sys = self.syscalls@;
        let ghost orig_tys = self.tys@;
        let syscalls = sort_syscalls(self.syscalls);
        let tys = sort_tys(self.tys);
        let kinds = self.res_kinds;
        proof {
            let kv = strs_view(kinds@);
            assert forall|j: int| 0 <= j < tys@.len() implies ty_resolves(#[trigger] tys@[j], tys@, kv) by {
                let k = choose|k: int| 0 <= k < orig_tys.len() && orig_tys[k] == tys@[j];
                lemma_resolves_rearranged(orig_tys[k], orig_tys, tys@, kv);
            }
            assert forall|i: int| 0 <= i < syscalls@.len() implies syscall_resolves(#[trigger] syscalls@[i], tys@, kv) by {
                let k = choose|k: int| 0 <= k < orig_sys.len() && orig_sys[k] == syscalls@[i];
                lemma_syscall_resolves_rearranged(orig_sys[k], orig_tys, tys@, kv);
            }
        }
        let res_tys = collect_res_tys(&tys);
        let (names, supers, subs) = map_res_kinds(&res_tys, &kinds);
        let (sin, sout, in_sys, out_sys) = map_syscall_res(&syscalls, &tys, &kinds);
        let nk = kinds.len();
        proof {
            assert forall|k: int, m: int| 0 <= k < subs@.len() && 0 <= m < subs@[k]@.len() implies (#[trigger] subs@[k]@[m]) < out_sys@.len() by {
                assert(subs@[k]@.to_set().contains(subs@[k]@[m]));
            }
        }
        let filled = fill_outputs(&out_sys, &subs);
        let mut enabled: Vec<SyscallId> = Vec::new();
        let mut i: usize = 0;
        while i < syscalls.len()
            invariant
                i <= syscalls@.len(),
                enabled@ == syscalls@.subrange(0, i as int).map_values(|s: Syscall| s.id),
            decreases syscalls.len() - i,
        {
            enabled.push(syscalls[i].id);
            i = i + 1;
            assert(enabled@ =~= syscalls@.subrange(0, i as int).map_values(|s: Syscall| s.id));
        }
        assert(syscalls@.subrange(0, syscalls@.len() as int) =~= syscalls@);
        proof {
            assert forall|k: int| 0 <= k < nk implies (#[trigger] filled@[k])@.to_set() == output_syscalls(
                syscalls@,
                sout@,
                sub_kinds(res_tys@, kinds@, k),
                k as usize,
            ) by {
                let direct = syscalls_with(syscalls@, sout@, k as usize);
                if out_sys@[k]@.len() > 0 {
                    assert(direct.contains(out_sys@[k]@[0]));
                } else {
                    if exists|sid: SyscallId| direct.contains(sid) {
                        let sid = choose|sid: SyscallId| direct.contains(sid);
                        assert(out_sys@[k]@.to_set().contains(sid));
                    }
                    assert forall|sid: SyscallId| #[trigger] filled@[k]@.to_set().contains(sid) <==> output_syscalls(
                        syscalls@, sout@, sub_kinds(res_tys@, kinds@, k), k as usize).contains(sid) by {
                        if filled@[k]@.to_set().contains(sid) {
                            let m = choose|m: int| 0 <= m < subs@[k]@.len() && #[trigger] out_sys@[subs@[k]@[m] as int]@.contains(sid);
                            let s = subs@[k]@[m];
                            assert(subs@[k]@.to_set().contains(s));
                            assert(out_sys@[s as int]@.to_set().contains(sid));
                            assert(syscalls_with(syscalls@, sout@, s).contains(sid));
                        }
                        if output_syscalls(syscalls@, sout@, sub_kinds(res_tys@, kinds@, k), k as usize).contains(sid) {
                            let s = choose|s: ResKindId| sub_kinds(res_tys@, kinds@, k).contains(s) && #[trigger] syscalls_with(syscalls@, sout@, s).contains(sid);
                            assert(subs@[k]@.to_set().contains(s));
                            let m = choose|m: int| 0 <= m < subs@[k]@.len() && subs@[k]@[m] == s;
                            assert(out_sys@[s as int]@.to_set().contains(sid));
                            assert(out_sys@[subs@[k]@[m] as int]@.contains(sid));
                        }
                    }
                    assert(filled@[k]@.to_set() =~= output_syscalls(syscalls@, sout@, sub_kinds(res_tys@, kinds@, k), k as usize));
                }
            }
            assert forall|e: int| 0 <= e < enabled@.len() implies exists|i2: int|
                0 <= i2 < syscalls@.len() && syscalls@[i2].id == #[trigger] enabled@[e] by {
                assert(syscalls@[e].id == enabled@[e]);
            }
            assert forall|k: int| 0 <= k < sin@.len() implies strictly_sorted((#[trigger] sin@[k])@) by {
                assert(res_usage_ok(tys@, kinds@, syscalls@[k], sin@[k]@, sout@[k]@));
            }
            assert forall|k: int| 0 <= k < sout@.len() implies strictly_sorted((#[trigger] sout@[k])@) by {
                assert(res_usage_ok(tys@, kinds@, syscalls@[k], sin@[k]@, sout@[k]@));
            }
            assert forall|a: int, b: int| 0 <= a < b < enabled@.len() implies enabled@[a] < enabled@[b] by {
                assert(enabled@[a] == syscalls@[a].id && enabled@[b] == syscalls@[b].id);
            }
            assert forall|k: int, m: int| 0 <= k < supers@.len() && 0 <= m < supers@[k]@.len() implies (#[trigger] supers@[k]@[m]) < nk by {
                assert(supers@[k]@.to_set().contains(supers@[k]@[m]));
            }
            assert forall|k: int, m: int| 0 <= k < sin@.len() && 0 <= m < sin@[k]@.len() implies (#[trigger] sin@[k]@[m]) < nk by {
                assert(res_usage_ok(tys@, kinds@, syscalls@[k], sin@[k]@, sout@[k]@));
                assert(sin@[k]@.contains(sin@[k]@[m]));
            }
            assert forall|k: int, m: int| 0 <= k < sout@.len() && 0 <= m < sout@[k]@.len() implies (#[trigger] sout@[k]@[m]) < nk by {
                assert(res_usage_ok(tys@, kinds@, syscalls@[k], sin@[k]@, sout@[k]@));
                assert(sout@[k]@.contains(sout@[k]@[m]));
            }
        }
        let supers = lists_sorted_by_name(supers, &kinds);
        let subs = lists_sorted_by_name(subs, &kinds);
        let t = Target {
            os: self.os.unwrap(),
            arch: self.arch.unwrap(),
            ptr_sz: self.ptr_sz.unwrap(),
            page_sz: self.page_sz.unwrap(),
            page_num: self.page_num.unwrap(),
            le_endian: self.le_endian,
            special_ptrs: self.special_ptrs,
            data_offset: match self.data_offset {
                Some(d) => d,
                None => 0,
            },
            revision: self.revision.unwrap(),
            all_syscalls: syscalls,
            enabled_syscalls: enabled,
            tys,
            res_tys,
            res_kinds: kinds,
            res_name_mapping: names,
            res_super_ty_mapping: supers,
            res_sub_ty_mapping: subs,
            syscall_input_res: sin,
            syscall_output_res: sout,
            res_input_syscall: in_sys,
            res_output_syscall: filled,
        };
        proof {
            assert(syscalls_sorted(t.all_syscalls@));
            assert(tys_sorted(t.tys@));
            assert(kinds_unique(t.res_kinds@));
            assert(strictly_sorted(t.enabled_syscalls@));
            assert(sets_ok(t.syscall_input_res@, nk as nat));
            assert(sets_ok(t.syscall_output_res@, nk as nat));
            assert(lists_by_name(t.res_super_ty_mapping@, t.res_kinds@, nk as nat));
            assert(lists_by_name(t.res_sub_ty_mapping@, t.res_kinds@, nk as nat));
            assert(sets_sorted(t.res_input_syscall@));
            assert(sets_sorted(t.res_output_syscall@));
            assert forall|e: int| 0 <= e < t.enabled_syscalls@.len() implies t.has_syscall(#[trigger] t.enabled_syscalls@[e]) by {
                assert(t.enabled_syscalls@ == t.all_syscalls@.map_values(|s: Syscall| s.id));
                assert(t.all_syscalls@[e].id == t.enabled_syscalls@[e]);
            }
            assert(t.syscall_input_res@.len() == t.all_syscalls@.len());
            assert(t.syscall_output_res@.len() == t.all_syscalls@.len());
            assert(t.res_name_mapping@.len() == nk);
            assert(t.res_super_ty_mapping@.len() == nk);
            assert(t.res_sub_ty_mapping@.len() == nk);
            assert(t.res_input_syscall@.len() == nk);
            assert(t.res_output_syscall@.len() == nk);
            assert(t.wf());
        }
        t
    }
}

} // verus!

//! Length arguments: the values of `len`, `bytesize`, `bitsize` and
//! `offsetof` types, computed from the values they describe.
//!
//! A value is named by its path: the index of the argument, then for each
//! step the index of a child (0 for a pointee or a union option, the index
//! of the element in a group).
use crate::size::{lookup_ty, sum_sizes, ty_with_id, value_size, value_tys_known};
use crate::strings::prefix_before_bracket;
use crate::target::{Target, has_ty};
use crate::ty::group::Field;
use crate::ty::integer::{bit_size_fits, int_bit_size, spec_bit_size, LenType};
use crate::ty::{Type, TypeKind};
use crate::value::{IntegerValue, Value, ValueKindInner};
use vstd::pervasive::VecAdditionalExecFns;
use crate::parse::ParsedCall;
use vstd::prelude::*;

verus! {

/// The `i`-th child of a value.
pub open spec fn child(v: Value, i: int) -> Option<Value> {
    match v.inner {
        ValueKindInner::PtrValue(p) => if i == 0 {
            match p.pointee {
                Some(b) => Some(*b),
                None => None,
            }
        } else {
            None
        },
        ValueKindInner::GroupValue(g) => if 0 <= i < g.inner@.len() {
            Some(g.inner@[i])
        } else {
            None
        },
        ValueKindInner::UnionValue(u) => if i == 0 {
            Some(*u.option)
        } else {
            None
        },
        _ => None,
    }
}

/// The value reached from `v` by the steps of `p`.
pub open spec fn descend(v: Value, p: Seq<usize>) -> Option<Value>
    decreases p.len(),
{
    if p.len() == 0 {
        Some(v)
    } else {
        match descend(v, p.drop_last()) {
            Some(c) => child(c, p.last() as int),
            None => None,
        }
    }
}

/// The value at path `p` among the arguments.
pub open spec fn node_at(args: Seq<Value>, p: Seq<usize>) -> Option<Value> {
    if p.len() == 0 || p[0] >= args.len() {
        None
    } else {
        descend(args[p[0] as int], p.drop_first())
    }
}

/// The value a chain of pointers leads to; `None` for a null pointer.
pub open spec fn inner_of(v: Value) -> Option<Value>
    decreases v,
{
    match v.inner {
        ValueKindInner::PtrValue(p) => match p.pointee {
            Some(b) => inner_of(*b),
            None => None,
        },
        _ => Some(v),
    }
}

/// Number of pointers followed by `inner_of`.
pub open spec fn ptr_depth(v: Value) -> nat
    decreases v,
{
    match v.inner {
        ValueKindInner::PtrValue(p) => match p.pointee {
            Some(b) => 1 + ptr_depth(*b),
            None => 0,
        },
        _ => 0,
    }
}

/// The path with the trailing steps into pointees removed.
pub open spec fn strip_ptr_steps(args: Seq<Value>, q: Seq<usize>) -> Seq<usize>
    decreases q.len(),
{
    if q.len() <= 1 {
        q
    } else {
        match node_at(args, q.drop_last()) {
            Some(v) => if v.inner is PtrValue {
                strip_ptr_steps(args, q.drop_last())
            } else {
                q
            },
            None => q,
        }
    }
}

/// The struct value that holds the value at `q` (directly or through
/// pointers), if there is one.
pub open spec fn parent_of(tys: Seq<Type>, args: Seq<Value>, q: Seq<usize>) -> Option<Seq<usize>> {
    let s = strip_ptr_steps(args, q);
    if s.len() <= 1 {
        None
    } else {
        let p = s.drop_last();
        match node_at(args, p) {
            Some(v) => if v.inner is GroupValue && ty_with_id(tys, v.comm.ty_id) is Struct {
                Some(p)
            } else {
                None
            },
            None => None,
        }
    }
}

/// Name of the type of a value, template arguments cut off.
pub open spec fn value_template_name(tys: Seq<Type>, v: Value) -> Seq<char> {
    prefix_before_bracket(ty_with_id(tys, v.comm.ty_id).spec_comm().name@)
}

/// The nearest struct above `cur` whose template name is `elem`.
pub open spec fn walk_up(tys: Seq<Type>, args: Seq<Value>, cur: Seq<usize>, elem: Seq<char>) -> Option<Seq<usize>>
    decreases cur.len(),
{
    match parent_of(tys, args, cur) {
        None => None,
        Some(p) => match node_at(args, p) {
            Some(v) => if value_template_name(tys, v) == elem {
                Some(p)
            } else if p.len() < cur.len() {
                walk_up(tys, args, p, elem)
            } else {
                None
            },
            None => None,
        },
    }
}

/// The elements and fields of a struct value.
pub open spec fn struct_inner(tys: Seq<Type>, v: Value) -> Option<(Seq<Value>, Seq<Field>)> {
    match (ty_with_id(tys, v.comm.ty_id), v.inner) {
        (Type::Struct(st), ValueKindInner::GroupValue(g)) => Some((g.inner@, st.fields@)),
        _ => None,
    }
}

/// The length a value of type `lt` holds for the value `v` found at byte
/// offset `offset`: the offset itself for `offsetof`, else the byte size of
/// `v` (the element count of an array when the length type has no width),
/// in units of the length type's bit size (8 when it is 0).
pub open spec fn len_of(tys: Seq<Type>, v: Value, offset: nat, lt: LenType) -> nat {
    let bit_sz: nat = if lt.bit_size == 0 {
        8
    } else {
        lt.bit_size as nat
    };
    if lt.offset {
        if offset != 0 {
            (offset * 8) / bit_sz
        } else {
            0
        }
    } else {
        match ty_with_id(tys, v.comm.ty_id) {
            Type::Vma(_) => match v.inner {
                ValueKindInner::VmaValue(x) => if x.vma_size != 0 {
                    (x.vma_size * 8) as nat / bit_sz
                } else {
                    0
                },
                _ => 0,
            },
            Type::Array(_) => match v.inner {
                ValueKindInner::GroupValue(g) => if spec_bit_size(lt.int_fmt, lt.comm.size) != 0 {
                    if value_size(tys, v) != 0 {
                        (value_size(tys, v) * 8) / bit_sz
                    } else {
                        0
                    }
                } else {
                    g.inner@.len()
                },
                _ => 0,
            },
            _ => if value_size(tys, v) != 0 {
                (value_size(tys, v) * 8) / bit_sz
            } else {
                0
            },
        }
    }
}

/// First field among the first `n` whose name is `elem`.
pub open spec fn first_field(fields: Seq<Field>, elem: Seq<char>, n: int) -> Option<int>
    decreases n,
{
    if n <= 0 {
        None
    } else {
        match first_field(fields, elem, n - 1) {
            Some(i) => Some(i),
            None => if fields[n - 1].name@ == elem {
                Some(n - 1)
            } else {
                None
            },
        }
    }
}

/// The view of the path element naming the enclosing struct.
pub open spec fn parent_ref() -> Seq<char> {
    seq!['p', 'a', 'r', 'e', 'n', 't']
}

/// The view of the path element naming the syscall's arguments.
pub open spec fn syscall_ref() -> Seq<char> {
    seq!['s', 'y', 's', 'c', 'a', 'l', 'l']
}

/// Follows the path of a length from element `start` among `vals` (typed
/// by `fields`), `cur` being the value the search of enclosing structs
/// starts from. Gives the length and the new search start; `None` where the
/// path names an enclosing struct that does not exist.
pub open spec fn calc(
    tys: Seq<Type>,
    args: Seq<Value>,
    cur: Option<Seq<usize>>,
    path: Seq<String>,
    start: int,
    vals: Seq<Value>,
    fields: Seq<Field>,
    lt: LenType,
) -> Option<(nat, Option<Seq<usize>>)>
    decreases path.len() - start,
{
    if start < 0 || start >= path.len() {
        None
    } else {
        let elem = path[start]@;
        let n = if vals.len() < fields.len() {
            vals.len() as int
        } else {
            fields.len() as int
        };
        match first_field(fields, elem, n) {
            Some(i) => match inner_of(vals[i]) {
                None => Some((0, cur)),
                Some(iv) => if start + 1 < path.len() {
                    match struct_inner(tys, iv) {
                        Some((vs, fs)) => calc(tys, args, cur, path, start + 1, vs, fs, lt),
                        None => Some((0, cur)),
                    }
                } else {
                    Some((len_of(tys, iv, sum_sizes(tys, vals.subrange(0, i)), lt), cur))
                },
            },
            None => {
                let offset = sum_sizes(tys, vals.subrange(0, n));
                if elem == parent_ref() && cur is Some {
                    match parent_of(tys, args, cur->0) {
                        None => None,
                        Some(p) => {
                            let pv = node_at(args, p)->0;
                            if start + 1 < path.len() {
                                match struct_inner(tys, pv) {
                                    Some((vs, fs)) => calc(tys, args, Some(p), path, start + 1, vs, fs, lt),
                                    None => Some((0, Some(p))),
                                }
                            } else {
                                Some((len_of(tys, pv, offset, lt), Some(p)))
                            }
                        },
                    }
                } else if cur is Some {
                    match walk_up(tys, args, cur->0, elem) {
                        None => Some((0, None)),
                        Some(p) => {
                            let pv = node_at(args, p)->0;
                            if start + 1 < path.len() {
                                match struct_inner(tys, pv) {
                                    Some((vs, fs)) => calc(tys, args, Some(p), path, start + 1, vs, fs, lt),
                                    None => Some((0, Some(p))),
                                }
                            } else {
                                Some((len_of(tys, pv, offset, lt), Some(p)))
                            }
                        },
                    }
                } else {
                    Some((0, cur))
                }
            },
        }
    }
}

/// Sizes in the tree of `v` can be counted in bits: every value's size,
/// and every vma's size, times 8 fits in 64 bits.
pub open spec fn values_small(tys: Seq<Type>, v: Value) -> bool
    decreases v,
{
    &&& value_size(tys, v) * 8 <= u64::MAX
    &&& match v.inner {
        ValueKindInner::VmaValue(x) => x.vma_size * 8 <= u64::MAX,
        ValueKindInner::PtrValue(p) => match p.pointee {
            Some(b) => values_small(tys, *b),
            None => true,
        },
        ValueKindInner::GroupValue(g) => forall|i: int|
            0 <= i < g.inner@.len() ==> values_small(tys, #[trigger] g.inner@[i]),
        ValueKindInner::UnionValue(u) => values_small(tys, *u.option),
        _ => true,
    }
}

/// The size of a group is at least the sum of its elements.
proof fn lemma_group_sum_le_size(tys: Seq<Type>, v: Value)
    requires
        v.inner is GroupValue,
    ensures
        sum_sizes(tys, v.inner->GroupValue_0.inner@) <= value_size(tys, v),
{
}

/// The sum over a prefix is at most the sum over the whole sequence.
proof fn lemma_sum_prefix(tys: Seq<Type>, s: Seq<Value>, n: int)
    requires
        0 <= n <= s.len(),
    ensures
        sum_sizes(tys, s.subrange(0, n)) <= sum_sizes(tys, s),
    decreases s.len(),
{
    if n < s.len() {
        assert(s.drop_last() =~= s.subrange(0, s.len() - 1));
        lemma_sum_prefix(tys, s.drop_last(), n);
        assert(s.drop_last().subrange(0, n) =~= s.subrange(0, n));
    } else {
        assert(s.subrange(0, n) =~= s);
    }
}

/// The types of the value tree are known and its sizes small.
pub open spec fn tree_ok(tys: Seq<Type>, v: Value) -> bool {
    value_tys_known(tys, v) && values_small(tys, v)
}

proof fn lemma_child_ok(tys: Seq<Type>, v: Value, i: int)
    requires
        tree_ok(tys, v),
        child(v, i) is Some,
    ensures
        tree_ok(tys, child(v, i)->0),
{
    match v.inner {
        ValueKindInner::GroupValue(g) => {
            assert(value_tys_known(tys, g.inner@[i]));
            assert(values_small(tys, g.inner@[i]));
        },
        _ => {},
    }
}

proof fn lemma_descend_ok(tys: Seq<Type>, v: Value, p: Seq<usize>)
    requires
        tree_ok(tys, v),
        descend(v, p) is Some,
    ensures
        tree_ok(tys, descend(v, p)->0),
    decreases p.len(),
{
    if p.len() > 0 {
        lemma_descend_ok(tys, v, p.drop_last());
        lemma_child_ok(tys, descend(v, p.drop_last())->0, p.last() as int);
    }
}

proof fn lemma_inner_ok(tys: Seq<Type>, v: Value)
    requires
        tree_ok(tys, v),
        inner_of(v) is Some,
    ensures
        tree_ok(tys, inner_of(v)->0),
    decreases v,
{
    if let ValueKindInner::PtrValue(p) = v.inner {
        if let Some(b) = p.pointee {
            lemma_inner_ok(tys, *b);
        }
    }
}

/// The child `i` of a value, as `child` gives it.
fn child_exec(v: &Value, i: usize) -> (r: Option<&Value>)
    ensures
        r matches Some(c) ==> child(*v, i as int) == Some(*c),
        r is None ==> child(*v, i as int) is None,
{
    match &v.inner {
        ValueKindInner::PtrValue(p) => {
            if i == 0 {
                match &p.pointee {
                    Some(b) => Some(&**b),
                    None => None,
                }
            } else {
                None
            }
        },
        ValueKindInner::GroupValue(g) => {
            if i < g.inner.len() {
                Some(&g.inner[i])
            } else {
                None
            }
        },
        ValueKindInner::UnionValue(u) => {
            if i == 0 {
                Some(&*u.option)
            } else {
                None
            }
        },
        _ => None,
    }
}

/// The value at path `p` among the arguments.
fn node_at_exec<'a>(args: &'a Vec<Value>, p: &Vec<usize>) -> (r: Option<&'a Value>)
    ensures
        r matches Some(c) ==> node_at(args@, p@) == Some(*c),
        r is None ==> node_at(args@, p@) is None,
{
    if p.len() == 0 || p[0] >= args.len() {
        return None;
    }
    let mut cur: &Value = &args[p[0]];
    let mut j: usize = 1;
    while j < p.len()
        invariant
            1 <= j <= p@.len(),
            p[0] < args@.len(),
            descend(args@[p@[0] as int], p@.drop_first().subrange(0, j - 1)) == Some(*cur),
        decreases p.len() - j,
    {
        proof {
            assert(p@.drop_first().subrange(0, j as int).drop_last() =~= p@.drop_first().subrange(0, j - 1));
        }
        match child_exec(cur, p[j]) {
            Some(c) => {
                cur = c;
            },
            None => {
                proof {
                    lemma_descend_none(args@[p@[0] as int], p@.drop_first(), j as int);
                }
                return None;
            },
        }
        j = j + 1;
    }
    proof {
        assert(p@.drop_first().subrange(0, p@.len() - 1) =~= p@.drop_first());
    }
    Some(cur)
}

/// Once a path leads nowhere, longer ones do not either.
proof fn lemma_descend_none(v: Value, p: Seq<usize>, n: int)
    requires
        0 <= n <= p.len(),
        descend(v, p.subrange(0, n)) is None,
    ensures
        descend(v, p) is None,
    decreases p.len() - n,
{
    if n < p.len() {
        assert(p.subrange(0, n + 1).drop_last() =~= p.subrange(0, n));
        lemma_descend_none(v, p, n + 1);
    } else {
        assert(p.subrange(0, n) =~= p);
    }
}

/// The value a chain of pointers leads to (`None` for a null pointer),
/// with the number of pointers followed.
fn inner_val(v: &Value) -> (r: (Option<&Value>, usize))
    requires
        ptr_depth(*v) <= usize::MAX,
    ensures
        r.0 matches Some(c) ==> inner_of(*v) == Some(*c),
        r.0 is None ==> inner_of(*v) is None,
        r.1 == ptr_depth(*v),
    decreases *v,
{
    match &v.inner {
        ValueKindInner::PtrValue(p) => match &p.pointee {
            Some(b) => {
                let (c, d) = inner_val(&**b);
                (c, d + 1)
            },
            None => (None, 0),
        },
        _ => (Some(v), 0),
    }
}

/// The path without its trailing steps into pointees.
fn strip_ptr_steps_exec(args: &Vec<Value>, q: &Vec<usize>) -> (r: Vec<usize>)
    ensures
        r@ == strip_ptr_steps(args@, q@),
{
    let mut cur: Vec<usize> = q.clone();
    assert(cur@ =~= q@);
    loop
        invariant
            strip_ptr_steps(args@, q@) == strip_ptr_steps(args@, cur@),
        decreases cur@.len(),
    {
        if cur.len() <= 1 {
            return cur;
        }
        let ghost full = cur@;
        let last = cur.pop().unwrap();
        match node_at_exec(args, &cur) {
            Some(v) => match &v.inner {
                ValueKindInner::PtrValue(_) => {},
                _ => {
                    cur.push(last);
                    assert(cur@ =~= full);
                    return cur;
                },
            },
            None => {
                cur.push(last);
                assert(cur@ =~= full);
                return cur;
            },
        }
    }
}

/// The struct value holding the value at `q`, if there is one.
fn parent_of_exec(target: &Target, args: &Vec<Value>, q: &Vec<usize>) -> (r: Option<Vec<usize>>)
    requires
        target.wf(),
        forall|i: int| 0 <= i < args@.len() ==> tree_ok(target.tys@, #[trigger] args@[i]),
    ensures
        r matches Some(p) ==> parent_of(target.tys@, args@, q@) == Some(p@),
        r is None ==> parent_of(target.tys@, args@, q@) is None,
{
    let mut s = strip_ptr_steps_exec(args, q);
    if s.len() <= 1 {
        return None;
    }
    s.pop();
    match node_at_exec(args, &s) {
        Some(v) => {
            proof {
                lemma_node_ok(target.tys@, args@, s@);
            }
            match &v.inner {
                ValueKindInner::GroupValue(_) => {
                    let ty = lookup_ty(target, v.comm.ty_id);
                    match ty {
                        Type::Struct(_) => Some(s),
                        _ => None,
                    }
                },
                _ => None,
            }
        },
        None => None,
    }
}

/// Every value among the arguments has known types and small sizes.
proof fn lemma_node_ok(tys: Seq<Type>, args: Seq<Value>, p: Seq<usize>)
    requires
        forall|i: int| 0 <= i < args.len() ==> tree_ok(tys, #[trigger] args[i]),
        node_at(args, p) is Some,
    ensures
        tree_ok(tys, node_at(args, p)->0),
{
    assert(tree_ok(tys, args[p[0] as int]));
    lemma_descend_ok(tys, args[p[0] as int], p.drop_first());
}

/// The nearest struct above `cur` whose template name is `elem`.
fn walk_up_exec(target: &Target, args: &Vec<Value>, cur: &Vec<usize>, elem: &String) -> (r: Option<Vec<usize>>)
    requires
        target.wf(),
        forall|i: int| 0 <= i < args@.len() ==> tree_ok(target.tys@, #[trigger] args@[i]),
    ensures
        r matches Some(p) ==> walk_up(target.tys@, args@, cur@, elem@) == Some(p@),
        r is None ==> walk_up(target.tys@, args@, cur@, elem@) is None,
    decreases cur@.len(),
{
    match parent_of_exec(target, args, cur) {
        None => None,
        Some(p) => {
            proof {
                lemma_parent_shorter(target.tys@, args@, cur@);
            }
            match node_at_exec(args, &p) {
                Some(v) => {
                    proof {
                        lemma_node_ok(target.tys@, args@, p@);
                    }
                    let ty = lookup_ty(target, v.comm.ty_id);
                    let name = ty.template_name();
                    if name == *elem {
                        Some(p)
                    } else if p.len() < cur.len() {
                        walk_up_exec(target, args, &p, elem)
                    } else {
                        None
                    }
                },
                None => None,
            }
        },
    }
}

proof fn lemma_strip_shorter(args: Seq<Value>, q: Seq<usize>)
    ensures
        strip_ptr_steps(args, q).len() <= q.len(),
    decreases q.len(),
{
    if q.len() > 1 {
        lemma_strip_shorter(args, q.drop_last());
    }
}

proof fn lemma_parent_shorter(tys: Seq<Type>, args: Seq<Value>, q: Seq<usize>)
    ensures
        parent_of(tys, args, q) matches Some(p) ==> p.len() < q.len(),
{
    lemma_strip_shorter(args, q);
}

/// The view of an optional path.
pub open spec fn opt_view(o: Option<Vec<usize>>) -> Option<Seq<usize>> {
    match o {
        Some(v) => Some(v@),
        None => None,
    }
}

/// The value a chain of pointers leads to; `None` for a null pointer.
fn follow_ptrs(v: &Value) -> (r: Option<&Value>)
    ensures
        r matches Some(c) ==> inner_of(*v) == Some(*c),
        r is None ==> inner_of(*v) is None,
    decreases *v,
{
    match &v.inner {
        ValueKindInner::PtrValue(p) => match &p.pointee {
            Some(b) => follow_ptrs(&**b),
            None => None,
        },
        _ => Some(v),
    }
}

/// A length type whose width in bits can be computed.
pub open spec fn len_ty_ok(lt: LenType) -> bool {
    bit_size_fits(lt.int_fmt, lt.comm.size)
}

/// The length a value of type `lt` holds for `v` found at byte offset
/// `offset` (see `len_of`).
pub fn do_calculate_len(target: &Target, v: &Value, offset: u64, lt: &LenType) -> (r: u64)
    requires
        target.wf(),
        tree_ok(target.tys@, *v),
        offset * 8 <= u64::MAX,
        len_ty_ok(*lt),
    ensures
        r == len_of(target.tys@, *v, offset as nat, *lt),
{
    let bit_sz: u64 = if lt.bit_size == 0 {
        8
    } else {
        lt.bit_size
    };
    if lt.offset {
        return if offset != 0 {
            (offset * 8) / bit_sz
        } else {
            0
        };
    }
    let ty = lookup_ty(target, v.comm.ty_id);
    match ty {
        Type::Vma(_) => match &v.inner {
            ValueKindInner::VmaValue(x) => {
                if x.vma_size != 0 {
                    (x.vma_size * 8) / bit_sz
                } else {
                    0
                }
            },
            _ => 0,
        },
        Type::Array(_) => match &v.inner {
            ValueKindInner::GroupValue(g) => {
                if int_bit_size(lt.int_fmt, lt.comm.size) != 0 {
                    let sz = v.size(target);
                    if sz != 0 {
                        (sz * 8) / bit_sz
                    } else {
                        0
                    }
                } else {
                    g.inner.len() as u64
                }
            },
            _ => 0,
        },
        _ => {
            let sz = v.size(target);
            if sz != 0 {
                (sz * 8) / bit_sz
            } else {
                0
            }
        },
    }
}

/// The elements and fields of a struct value, if it is one.
fn struct_inner_exec<'a>(target: &'a Target, v: &'a Value) -> (r: Option<(&'a Vec<Value>, &'a Vec<Field>)>)
    requires
        target.wf(),
        has_ty(target.tys@, v.comm.ty_id),
    ensures
        r matches Some((vs, fs)) ==> struct_inner(target.tys@, *v) == Some((vs@, fs@)),
        r is None ==> struct_inner(target.tys@, *v) is None,
{
    let ty = lookup_ty(target, v.comm.ty_id);
    match (ty, &v.inner) {
        (Type::Struct(st), ValueKindInner::GroupValue(g)) => Some((&g.inner, &st.fields)),
        _ => None,
    }
}

/// The arguments and the values searched are in reach of the computation:
/// known types and small sizes.
pub open spec fn calc_inputs_ok(tys: Seq<Type>, args: Seq<Value>, vals: Seq<Value>) -> bool {
    &&& forall|i: int| 0 <= i < args.len() ==> tree_ok(tys, #[trigger] args[i])
    &&& forall|i: int| 0 <= i < vals.len() ==> tree_ok(tys, #[trigger] vals[i])
    &&& sum_sizes(tys, vals) * 8 <= u64::MAX
}

proof fn lemma_struct_inner_ok(tys: Seq<Type>, args: Seq<Value>, v: Value)
    requires
        forall|i: int| 0 <= i < args.len() ==> tree_ok(tys, #[trigger] args[i]),
        tree_ok(tys, v),
        struct_inner(tys, v) is Some,
    ensures
        calc_inputs_ok(tys, args, v.inner->GroupValue_0.inner@),
{
    let g = v.inner->GroupValue_0;
    lemma_group_sum_le_size(tys, v);
    assert forall|i: int| 0 <= i < g.inner@.len() implies tree_ok(tys, #[trigger] g.inner@[i]) by {
        assert(value_tys_known(tys, g.inner@[i]));
        assert(values_small(tys, g.inner@[i]));
    }
}

/// Follows the path of a length from element `start` (see `calc`); `cur`
/// is where the search of enclosing structs starts, and is moved as the
/// search goes up.
#[verifier::loop_isolation(false)]
fn do_calculation(
    target: &Target,
    args: &Vec<Value>,
    cur: &mut Option<Vec<usize>>,
    path: &Vec<String>,
    start: usize,
    vals: &Vec<Value>,
    fields: &Vec<Field>,
    lt: &LenType,
) -> (r: u64)
    requires
        target.wf(),
        calc_inputs_ok(target.tys@, args@, vals@),
        len_ty_ok(*lt),
        calc(target.tys@, args@, opt_view(*old(cur)), path@, start as int, vals@, fields@, *lt) is Some,
    ensures
        calc(target.tys@, args@, opt_view(*old(cur)), path@, start as int, vals@, fields@, *lt) == Some(
            (r as nat, opt_view(*final(cur))),
        ),
    decreases path@.len() - start,
{
    let plen = path.len();
    proof {
        assert(0 <= start < plen);
    }
    let elem = &path[start];
    let n: usize = if vals.len() < fields.len() {
        vals.len()
    } else {
        fields.len()
    };
    let mut offset: u64 = 0;
    let mut i: usize = 0;
    let mut found = false;
    while i < n && !found
        invariant
            i <= n,
            n <= vals@.len(),
            n <= fields@.len(),
            offset == sum_sizes(target.tys@, vals@.subrange(0, i as int)),
            !found ==> first_field(fields@, elem@, i as int) is None,
            found ==> i < n && first_field(fields@, elem@, n as int) == Some(i as int),
        decreases n - i + (if found { 0int } else { 1int }),
    {
        if fields[i].name == *elem {
            proof {
                lemma_first_field_stays(fields@, elem@, i as int + 1, n as int);
            }
            found = true;
        } else {
            proof {
                lemma_sum_prefix(target.tys@, vals@, i + 1);
                assert(vals@.subrange(0, i + 1).drop_last() =~= vals@.subrange(0, i as int));
                assert(tree_ok(target.tys@, vals@[i as int]));
            }
            let sz = vals[i].size(target);
            offset = offset + sz;
            i = i + 1;
        }
    }
    if found {
        match follow_ptrs(&vals[i]) {
            None => 0,
            Some(iv) => {
                proof {
                    assert(tree_ok(target.tys@, vals@[i as int]));
                    lemma_inner_ok(target.tys@, vals@[i as int]);
                    lemma_sum_prefix(target.tys@, vals@, i as int);
                }
                if plen - start > 1 {
                    match struct_inner_exec(target, iv) {
                        Some((vs, fs)) => {
                            proof {
                                lemma_struct_inner_ok(target.tys@, args@, *iv);
                            }
                            do_calculation(target, args, cur, path, start + 1, vs, fs, lt)
                        },
                        None => 0,
                    }
                } else {
                    do_calculate_len(target, iv, offset, lt)
                }
            },
        }
    } else {
        proof {
            assert(vals@.subrange(0, n as int) == vals@.subrange(0, i as int));
            lemma_sum_prefix(target.tys@, vals@, n as int);
            reveal_strlit("parent");
        }
        let parent_name = String::from_str("parent");
        assert(parent_name@ =~= parent_ref());
        let is_parent = *elem == parent_name;
        let target_node = if is_parent && cur.is_some() {
            let c = cur.as_ref().unwrap();
            parent_of_exec(target, args, c)
        } else if cur.is_some() {
            let c = cur.as_ref().unwrap();
            let w = walk_up_exec(target, args, c, elem);
            if w.is_none() {
                *cur = None;
                return 0;
            }
            w
        } else {
            return 0;
        };
        proof {
            if let Some(c) = opt_view(*cur) {
                if elem@ == parent_ref() {
                    assert(target_node is Some);
                } else {
                    lemma_walk_up_node(target.tys@, args@, c, elem@);
                }
            }
        }
        let p = target_node.unwrap();
        let pv = node_at_exec(args, &p).unwrap();
        proof {
            lemma_node_ok(target.tys@, args@, p@);
        }
        *cur = Some(p);
        if plen - start > 1 {
            match struct_inner_exec(target, pv) {
                Some((vs, fs)) => {
                    proof {
                        lemma_struct_inner_ok(target.tys@, args@, *pv);
                    }
                    do_calculation(target, args, cur, path, start + 1, vs, fs, lt)
                },
                None => 0,
            }
        } else {
            do_calculate_len(target, pv, offset, lt)
        }
    }
}

proof fn lemma_walk_up_node(tys: Seq<Type>, args: Seq<Value>, cur: Seq<usize>, elem: Seq<char>)
    ensures
        walk_up(tys, args, cur, elem) matches Some(p) ==> node_at(args, p) is Some,
    decreases cur.len(),
{
    if let Some(p) = parent_of(tys, args, cur) {
        if p.len() < cur.len() {
            lemma_walk_up_node(tys, args, p, elem);
        }
    }
}

proof fn lemma_first_field_stays(fields: Seq<Field>, elem: Seq<char>, m: int, n: int)
    requires
        1 <= m <= n,
        first_field(fields, elem, m) == Some(m - 1),
    ensures
        first_field(fields, elem, n) == Some(m - 1),
    decreases n - m,
{
    if m < n {
        lemma_first_field_stays(fields, elem, m, n - 1);
    }
}

/// The path of the value the pointer chain at `q` leads to.
pub open spec fn inner_path(v: Value, q: Seq<usize>) -> Seq<usize> {
    q + Seq::new(ptr_depth(v), |i: int| 0usize)
}

/// Every length type has a path, a path starting with `syscall` goes on,
/// and its width can be computed.
pub open spec fn len_tys_ok(tys: Seq<Type>) -> bool {
    forall|j: int| 0 <= j < tys.len() ==> (#[trigger] tys[j] matches Type::Len(lt) ==> len_ty_ok(lt))
}

/// One length value found among `vals` (the `n`-th, at path `node`) gets
/// its value; `None` where the computation panics.
pub open spec fn len_update(
    tys: Seq<Type>,
    args: Seq<Value>,
    sfields: Seq<Field>,
    cur: Option<Seq<usize>>,
    node: Seq<usize>,
    iv: Value,
    vals: Seq<Value>,
    fields: Seq<Field>,
    lt: LenType,
) -> Option<(nat, Option<Seq<usize>>)> {
    let path = lt.path@;
    if path.len() == 0 || !(iv.inner is IntegerValue) {
        None
    } else if path[0]@ == syscall_ref() {
        calc(tys, args, cur, path, 1, args, sfields, lt)
    } else {
        calc(tys, args, Some(node), path, 0, vals, fields, lt)
    }
}

/// The lengths computed among the first `n` of `vals` (the elements of the
/// value at `base`, or the arguments when `base` is empty), in order, with
/// the search start left by the last one; `None` where the computation
/// panics.
pub open spec fn sibling_updates(
    tys: Seq<Type>,
    args: Seq<Value>,
    sfields: Seq<Field>,
    cur: Option<Seq<usize>>,
    base: Seq<usize>,
    vals: Seq<Value>,
    fields: Seq<Field>,
    n: nat,
) -> Option<(Seq<(Seq<usize>, u64)>, Option<Seq<usize>>)>
    decreases n,
{
    if n == 0 {
        Some((Seq::empty(), cur))
    } else {
        match sibling_updates(tys, args, sfields, cur, base, vals, fields, (n - 1) as nat) {
            None => None,
            Some((ups, c)) => {
                let v = vals[n - 1];
                match inner_of(v) {
                    None => Some((ups, c)),
                    Some(iv) => match ty_with_id(tys, iv.comm.ty_id) {
                        Type::Len(lt) => {
                            let node = inner_path(v, base.push((n - 1) as usize));
                            match len_update(tys, args, sfields, c, node, iv, vals, fields, lt) {
                                None => None,
                                Some((x, c2)) => Some((ups.push((node, x as u64)), c2)),
                            }
                        },
                        _ => Some((ups, c)),
                    },
                }
            },
        }
    }
}

/// View of a list of updates.
pub open spec fn ups_view(v: Seq<(Vec<usize>, u64)>) -> Seq<(Seq<usize>, u64)> {
    v.map_values(|e: (Vec<usize>, u64)| (e.0@, e.1))
}

/// The value a pointer chain leads to, with its path.
fn inner_val_path<'a>(v: &'a Value, q: Vec<usize>) -> (r: (Option<&'a Value>, Vec<usize>))
    ensures
        r.0 matches Some(c) ==> inner_of(*v) == Some(*c),
        r.0 is None ==> inner_of(*v) is None,
        r.1@ == inner_path(*v, q@),
    decreases *v,
{
    match &v.inner {
        ValueKindInner::PtrValue(p) => match &p.pointee {
            Some(b) => {
                let mut q2 = q;
                let ghost q0 = q2@;
                q2.push(0);
                let (c, path) = inner_val_path(&**b, q2);
                proof {
                    assert(path@ =~= inner_path(*v, q0));
                }
                (c, path)
            },
            None => {
                proof {
                    assert(q@ =~= inner_path(*v, q@));
                }
                (None, q)
            },
        },
        _ => {
            proof {
                assert(q@ =~= inner_path(*v, q@));
            }
            (Some(v), q)
        },
    }
}

proof fn lemma_sibling_prefix(
    tys: Seq<Type>,
    args: Seq<Value>,
    sfields: Seq<Field>,
    cur: Option<Seq<usize>>,
    base: Seq<usize>,
    vals: Seq<Value>,
    fields: Seq<Field>,
    n: nat,
    m: nat,
)
    requires
        m <= n,
        sibling_updates(tys, args, sfields, cur, base, vals, fields, n) is Some,
    ensures
        sibling_updates(tys, args, sfields, cur, base, vals, fields, m) is Some,
    decreases n - m,
{
    if m < n {
        lemma_sibling_prefix(tys, args, sfields, cur, base, vals, fields, (n - 1) as nat, m);
    }
}

/// Computes the lengths among `vals` (the elements of the value at `base`,
/// or the arguments when `base` is empty) and appends them to `ups`.
#[verifier::spinoff_prover]
#[verifier::rlimit(60)]
fn find_cal_len_arg(
    target: &Target,
    args: &Vec<Value>,
    sfields: &Vec<Field>,
    cur: &mut Option<Vec<usize>>,
    base: &Vec<usize>,
    vals: &Vec<Value>,
    fields: &Vec<Field>,
    ups: &mut Vec<(Vec<usize>, u64)>,
)
    requires
        target.wf(),
        len_tys_ok(target.tys@),
        calc_inputs_ok(target.tys@, args@, vals@),
        calc_inputs_ok(target.tys@, args@, args@),
        sibling_updates(target.tys@, args@, sfields@, opt_view(*old(cur)), base@, vals@, fields@, vals@.len()) is Some,
    ensures
        sibling_updates(target.tys@, args@, sfields@, opt_view(*old(cur)), base@, vals@, fields@, vals@.len()) == Some(
            (ups_view(final(ups)@).subrange(old(ups)@.len() as int, final(ups)@.len() as int), opt_view(*final(cur))),
        ),
        final(ups)@.len() >= old(ups)@.len(),
        ups_view(final(ups)@).subrange(0, old(ups)@.len() as int) == ups_view(old(ups)@),
{
    let ghost c0 = opt_view(*cur);
    let ghost u0 = old(ups)@;
    let mut n: usize = 0;
    while n < vals.len()
        invariant
            n <= vals@.len(),
            target.wf(),
            len_tys_ok(target.tys@),
            calc_inputs_ok(target.tys@, args@, vals@),
            calc_inputs_ok(target.tys@, args@, args@),
            sibling_updates(target.tys@, args@, sfields@, c0, base@, vals@, fields@, vals@.len()) is Some,
            sibling_updates(target.tys@, args@, sfields@, c0, base@, vals@, fields@, n as nat) == Some(
                (ups_view(ups@).subrange(u0.len() as int, ups@.len() as int), opt_view(*cur)),
            ),
            ups@.len() >= u0.len(),
            ups_view(ups@).subrange(0, u0.len() as int) == ups_view(u0),
        decreases vals.len() - n,
    {
        proof {
            lemma_sibling_prefix(target.tys@, args@, sfields@, c0, base@, vals@, fields@, vals@.len(), (n + 1) as nat);
        }
        let ghost before = ups@;
        let mut q = base.clone();
        assert(q@ =~= base@);
        q.push(n);
        let (ivo, node) = inner_val_path(&vals[n], q);
        match ivo {
            None => {},
            Some(iv) => {
                proof {
                    assert(tree_ok(target.tys@, vals@[n as int]));
                    lemma_inner_ok(target.tys@, vals@[n as int]);
                }
                let ty = lookup_ty(target, iv.comm.ty_id);
                match ty {
                    Type::Len(lt) => {
                        proof {
                            let j = choose|j: int| 0 <= j < target.tys@.len() && target.tys@[j].spec_comm().id == iv.comm.ty_id;
                            assert(target.tys@[j] matches Type::Len(l) ==> len_ty_ok(l));
                        }
                        let is_int = match &iv.inner {
                            ValueKindInner::IntegerValue(_) => true,
                            _ => false,
                        };
                        if !is_int || lt.path.len() == 0 {
                            proof {
                                assert(false);
                            }
                            return;
                        }
                        proof {
                            reveal_strlit("syscall");
                        }
                        let syscall_name = String::from_str("syscall");
                        assert(syscall_name@ =~= syscall_ref());
                        let x = if lt.path[0] == syscall_name {
                            do_calculation(target, args, cur, &lt.path, 1, args, sfields, lt)
                        } else {
                            *cur = Some(node.clone());
                            assert(opt_view(*cur) == Some(node@));
                            do_calculation(target, args, cur, &lt.path, 0, vals, fields, lt)
                        };
                        ups.push((node, x));
                        proof {
                            assert(ups_view(ups@) =~= ups_view(before).push((node@, x)));
                            assert(ups_view(ups@).subrange(u0.len() as int, ups@.len() as int) =~= ups_view(before).subrange(u0.len() as int, before.len() as int).push((node@, x)));
                            assert(ups_view(ups@).subrange(0, u0.len() as int) =~= ups_view(before).subrange(0, u0.len() as int));
                        }
                    },
                    _ => {},
                }
            },
        }
        n = n + 1;
    }
}

/// The lengths computed in the tree of `v` (at path `p`), visiting its
/// values in pre-order and, at each struct, the lengths among its fields.
pub open spec fn visit_updates(
    tys: Seq<Type>,
    args: Seq<Value>,
    sfields: Seq<Field>,
    cur: Option<Seq<usize>>,
    v: Value,
    p: Seq<usize>,
) -> Option<(Seq<(Seq<usize>, u64)>, Option<Seq<usize>>)>
    decreases v, 0nat,
{
    let first = match (ty_with_id(tys, v.comm.ty_id), v.inner) {
        (Type::Struct(st), ValueKindInner::GroupValue(g)) => sibling_updates(
            tys,
            args,
            sfields,
            cur,
            p,
            g.inner@,
            st.fields@,
            g.inner@.len(),
        ),
        _ => Some((Seq::empty(), cur)),
    };
    match first {
        None => None,
        Some((u1, c1)) => {
            let rest = match v.inner {
                ValueKindInner::PtrValue(ptr) => match ptr.pointee {
                    Some(b) => visit_updates(tys, args, sfields, c1, *b, p.push(0)),
                    None => Some((Seq::empty(), c1)),
                },
                ValueKindInner::GroupValue(g) => visit_elems(tys, args, sfields, c1, g.inner@, p, g.inner@.len()),
                ValueKindInner::UnionValue(u) => visit_updates(tys, args, sfields, c1, *u.option, p.push(0)),
                _ => Some((Seq::empty(), c1)),
            };
            match rest {
                None => None,
                Some((u2, c2)) => Some((u1 + u2, c2)),
            }
        },
    }
}

/// `visit_updates` over the first `n` elements, in order.
pub open spec fn visit_elems(
    tys: Seq<Type>,
    args: Seq<Value>,
    sfields: Seq<Field>,
    cur: Option<Seq<usize>>,
    s: Seq<Value>,
    p: Seq<usize>,
    n: nat,
) -> Option<(Seq<(Seq<usize>, u64)>, Option<Seq<usize>>)>
    decreases s, n,
{
    if n == 0 || n > s.len() {
        Some((Seq::empty(), cur))
    } else {
        match visit_elems(tys, args, sfields, cur, s, p, (n - 1) as nat) {
            None => None,
            Some((u1, c1)) => match visit_updates(tys, args, sfields, c1, s[n - 1], p.push((n - 1) as usize)) {
                None => None,
                Some((u2, c2)) => Some((u1 + u2, c2)),
            },
        }
    }
}

/// The lengths of a syscall's arguments: first those among the arguments
/// themselves, then those found visiting each argument's tree; `None`
/// where the computation panics.
pub open spec fn len_updates(tys: Seq<Type>, args: Seq<Value>, sfields: Seq<Field>) -> Option<Seq<(Seq<usize>, u64)>> {
    match sibling_updates(tys, args, sfields, None, Seq::empty(), args, sfields, args.len()) {
        None => None,
        Some((u0, c0)) => match visit_elems_top(tys, args, sfields, c0, args.len()) {
            None => None,
            Some((u1, _)) => Some(u0 + u1),
        },
    }
}

/// `visit_updates` over the first `n` arguments, argument `i` at path `[i]`.
pub open spec fn visit_elems_top(
    tys: Seq<Type>,
    args: Seq<Value>,
    sfields: Seq<Field>,
    cur: Option<Seq<usize>>,
    n: nat,
) -> Option<(Seq<(Seq<usize>, u64)>, Option<Seq<usize>>)>
    decreases n,
{
    if n == 0 || n > args.len() {
        Some((Seq::empty(), cur))
    } else {
        match visit_elems_top(tys, args, sfields, cur, (n - 1) as nat) {
            None => None,
            Some((u1, c1)) => match visit_updates(tys, args, sfields, c1, args[n - 1], seq![(n - 1) as usize]) {
                None => None,
                Some((u2, c2)) => Some((u1 + u2, c2)),
            },
        }
    }
}

proof fn lemma_visit_elems_prefix(
    tys: Seq<Type>,
    args: Seq<Value>,
    sfields: Seq<Field>,
    cur: Option<Seq<usize>>,
    s: Seq<Value>,
    p: Seq<usize>,
    n: nat,
    m: nat,
)
    requires
        m <= n <= s.len(),
        visit_elems(tys, args, sfields, cur, s, p, n) is Some,
    ensures
        visit_elems(tys, args, sfields, cur, s, p, m) is Some,
    decreases n - m,
{
    if m < n {
        lemma_visit_elems_prefix(tys, args, sfields, cur, s, p, (n - 1) as nat, m);
    }
}

/// Computes the lengths in the tree of `v` (at path `p`) and appends them
/// to `ups` (see `visit_updates`).
fn visit_value(
    target: &Target,
    args: &Vec<Value>,
    sfields: &Vec<Field>,
    cur: &mut Option<Vec<usize>>,
    v: &Value,
    p: &Vec<usize>,
    ups: &mut Vec<(Vec<usize>, u64)>,
)
    requires
        target.wf(),
        len_tys_ok(target.tys@),
        calc_inputs_ok(target.tys@, args@, args@),
        tree_ok(target.tys@, *v),
        visit_updates(target.tys@, args@, sfields@, opt_view(*old(cur)), *v, p@) is Some,
    ensures
        visit_updates(target.tys@, args@, sfields@, opt_view(*old(cur)), *v, p@) == Some(
            (ups_view(final(ups)@).subrange(old(ups)@.len() as int, final(ups)@.len() as int), opt_view(*final(cur))),
        ),
        final(ups)@.len() >= old(ups)@.len(),
        ups_view(final(ups)@).subrange(0, old(ups)@.len() as int) == ups_view(old(ups)@),
    decreases *v,
{
    let ghost u0 = old(ups)@;
    let ty = lookup_ty(target, v.comm.ty_id);
    match (ty, &v.inner) {
        (Type::Struct(st), ValueKindInner::GroupValue(g)) => {
            proof {
                lemma_struct_inner_ok(target.tys@, args@, *v);
            }
            find_cal_len_arg(target, args, sfields, cur, p, &g.inner, &st.fields, ups);
        },
        _ => {},
    }
    let ghost u_mid = ups@;
    let ghost c_mid = opt_view(*cur);
    proof {
        assert(ups_view(ups@).subrange(u0.len() as int, ups@.len() as int) == ups_view(u_mid).subrange(u0.len() as int, u_mid.len() as int));
    }
    match &v.inner {
        ValueKindInner::PtrValue(ptr) => match &ptr.pointee {
            Some(b) => {
                let mut q = p.clone();
                assert(q@ =~= p@);
                q.push(0);
                proof {
                    assert(decreases_to!(*v => **b)) by {
                        assert(decreases_to!(*v => v.inner));
                        assert(decreases_to!(v.inner => *ptr));
                        assert(decreases_to!(*ptr => ptr.pointee));
                        assert(decreases_to!(ptr.pointee => *b));
                    }
                }
                visit_value(target, args, sfields, cur, &**b, &q, ups);
            },
            None => {},
        },
        ValueKindInner::GroupValue(g) => {
            let mut i: usize = 0;
            while i < g.inner.len()
                invariant
                    i <= g.inner@.len(),
                    v.inner == ValueKindInner::GroupValue(*g),
                    target.wf(),
                    len_tys_ok(target.tys@),
                    calc_inputs_ok(target.tys@, args@, args@),
                    tree_ok(target.tys@, *v),
                    visit_elems(target.tys@, args@, sfields@, c_mid, g.inner@, p@, g.inner@.len()) is Some,
                    visit_elems(target.tys@, args@, sfields@, c_mid, g.inner@, p@, i as nat) == Some(
                        (ups_view(ups@).subrange(u_mid.len() as int, ups@.len() as int), opt_view(*cur)),
                    ),
                    ups@.len() >= u_mid.len(),
                    ups_view(ups@).subrange(0, u_mid.len() as int) == ups_view(u_mid),
                decreases g.inner.len() - i,
            {
                proof {
                    lemma_visit_elems_prefix(target.tys@, args@, sfields@, c_mid, g.inner@, p@, g.inner@.len(), (i + 1) as nat);
                    assert(tree_ok(target.tys@, g.inner@[i as int])) by {
                        assert(value_tys_known(target.tys@, g.inner@[i as int]));
                        assert(values_small(target.tys@, g.inner@[i as int]));
                    }
                    assert(decreases_to!(*v => g.inner@[i as int])) by {
                        assert(decreases_to!(*v => v.inner));
                        assert(decreases_to!(v.inner => *g));
                        assert(decreases_to!(*g => g.inner));
                        assert(decreases_to!(g.inner => g.inner@));
                        assert(decreases_to!(g.inner@ => g.inner@[i as int]));
                    }
                }
                let ghost before = ups@;
                let mut q = p.clone();
                assert(q@ =~= p@);
                q.push(i);
                visit_value(target, args, sfields, cur, &g.inner[i], &q, ups);
                proof {
                    assert(ups_view(ups@).subrange(u_mid.len() as int, ups@.len() as int) =~= ups_view(before).subrange(u_mid.len() as int, before.len() as int) + ups_view(ups@).subrange(before.len() as int, ups@.len() as int));
                    assert(ups_view(ups@).subrange(0, u_mid.len() as int) =~= ups_view(ups@).subrange(0, before.len() as int).subrange(0, u_mid.len() as int));
                }
                i = i + 1;
            }
        },
        ValueKindInner::UnionValue(u) => {
            let mut q = p.clone();
            assert(q@ =~= p@);
            q.push(0);
            proof {
                assert(decreases_to!(*v => *u.option)) by {
                    assert(decreases_to!(*v => v.inner));
                    assert(decreases_to!(v.inner => *u));
                    assert(decreases_to!(*u => u.option));
                }
            }
            visit_value(target, args, sfields, cur, &u.option, &q, ups);
        },
        _ => {},
    }
    proof {
        assert(ups_view(ups@).subrange(u0.len() as int, ups@.len() as int) =~= ups_view(u_mid).subrange(u0.len() as int, u_mid.len() as int) + ups_view(ups@).subrange(u_mid.len() as int, ups@.len() as int));
        assert(ups_view(ups@).subrange(0, u0.len() as int) =~= ups_view(ups@).subrange(0, u_mid.len() as int).subrange(0, u0.len() as int));
    }
}

/// `n` is `o` with the integer at path `p` (below `o`) holding `x`; a path
/// that leads nowhere, or to a value that is not an integer, changes
/// nothing.
pub open spec fn set_rel(o: Value, n: Value, p: Seq<usize>, x: u64) -> bool
    decreases p.len(),
{
    if p.len() == 0 {
        match o.inner {
            ValueKindInner::IntegerValue(i) => n == (Value {
                comm: o.comm,
                inner: ValueKindInner::IntegerValue(IntegerValue { comm: i.comm, val: x }),
            }),
            _ => n == o,
        }
    } else {
        match (o.inner, n.inner) {
            (ValueKindInner::PtrValue(a), ValueKindInner::PtrValue(b)) => n.comm == o.comm && a.comm == b.comm
                && a.addr == b.addr && match (a.pointee, b.pointee) {
                (Some(pa), Some(pb)) => if p[0] == 0 {
                    set_rel(*pa, *pb, p.drop_first(), x)
                } else {
                    *pa == *pb
                },
                (None, None) => true,
                _ => false,
            },
            (ValueKindInner::GroupValue(a), ValueKindInner::GroupValue(b)) => n.comm == o.comm && a.comm == b.comm
                && a.inner@.len() == b.inner@.len() && (forall|j: int|
                0 <= j < a.inner@.len() && j != p[0] ==> #[trigger] b.inner@[j] == a.inner@[j]) && (p[0]
                < a.inner@.len() ==> set_rel(a.inner@[p[0] as int], b.inner@[p[0] as int], p.drop_first(), x)),
            (ValueKindInner::UnionValue(a), ValueKindInner::UnionValue(b)) => n.comm == o.comm && a.comm == b.comm
                && a.index == b.index && if p[0] == 0 {
                set_rel(*a.option, *b.option, p.drop_first(), x)
            } else {
                *a.option == *b.option
            },
            _ => n == o,
        }
    }
}

/// `n` is `o` with the integer at path `p` (from the arguments' root)
/// holding `x`.
pub open spec fn args_set_rel(o: Seq<Value>, n: Seq<Value>, p: Seq<usize>, x: u64) -> bool {
    if p.len() == 0 || p[0] >= o.len() {
        n == o
    } else {
        &&& n.len() == o.len()
        &&& forall|j: int| 0 <= j < o.len() && j != p[0] ==> #[trigger] n[j] == o[j]
        &&& set_rel(o[p[0] as int], n[p[0] as int], p.drop_first(), x)
    }
}

/// `n` is `o` after the updates, applied in order.
pub open spec fn applied(o: Seq<Value>, n: Seq<Value>, ups: Seq<(Seq<usize>, u64)>) -> bool {
    exists|st: Seq<Seq<Value>>|
        st.len() == ups.len() + 1 && st[0] == o && st.last() == n && forall|k: int|
            0 <= k < ups.len() ==> args_set_rel(#[trigger] st[k], st[k + 1], ups[k].0, ups[k].1)
}

/// Sets the integer at path `p[j..]` below `v` to `x`.
fn set_in(v: &mut Value, p: &Vec<usize>, j: usize, x: u64)
    requires
        j <= p@.len(),
    ensures
        set_rel(*old(v), *final(v), p@.subrange(j as int, p@.len() as int), x),
    decreases p@.len() - j,
{
    let ghost rest = p@.subrange(j as int, p@.len() as int);
    if j == p.len() {
        match &mut v.inner {
            ValueKindInner::IntegerValue(i) => {
                i.val = x;
            },
            _ => {},
        }
        return;
    }
    proof {
        assert(rest.drop_first() =~= p@.subrange(j + 1, p@.len() as int));
    }
    let k = p[j];
    match &mut v.inner {
        ValueKindInner::PtrValue(a) => {
            if k == 0 {
                match &mut a.pointee {
                    Some(b) => {
                        set_in(&mut **b, p, j + 1, x);
                    },
                    None => {},
                }
            }
        },
        ValueKindInner::GroupValue(a) => {
            if k < a.inner.len() {
                let mut e = Value::from_int(IntegerValue::new(0, crate::ty::Dir::In, 0));
                a.inner.set_and_swap(k, &mut e);
                set_in(&mut e, p, j + 1, x);
                a.inner.set_and_swap(k, &mut e);
            }
        },
        ValueKindInner::UnionValue(a) => {
            if k == 0 {
                set_in(&mut *a.option, p, j + 1, x);
            }
        },
        _ => {},
    }
}

/// Applies the updates in order.
fn apply_updates(args: &mut Vec<Value>, ups: &Vec<(Vec<usize>, u64)>)
    ensures
        applied(old(args)@, final(args)@, ups_view(ups@)),
{
    let ghost mut st: Seq<Seq<Value>> = seq![args@];
    let mut k: usize = 0;
    while k < ups.len()
        invariant
            k <= ups@.len(),
            st.len() == k + 1,
            st[0] == old(args)@,
            st.last() == args@,
            forall|k2: int| 0 <= k2 < k ==> args_set_rel(#[trigger] st[k2], st[k2 + 1], ups_view(ups@)[k2].0, ups_view(ups@)[k2].1),
        decreases ups.len() - k,
    {
        let p = &ups[k].0;
        let x = ups[k].1;
        let ghost before = args@;
        if p.len() > 0 && p[0] < args.len() {
            let i = p[0];
            let mut e = Value::from_int(IntegerValue::new(0, crate::ty::Dir::In, 0));
            args.set_and_swap(i, &mut e);
            let ghost e0 = e;
            set_in(&mut e, p, 1, x);
            args.set_and_swap(i, &mut e);
            proof {
                assert(p@.subrange(1, p@.len() as int) =~= p@.drop_first());
                assert(args_set_rel(before, args@, p@, x));
            }
        }
        proof {
            st = st.push(args@);
            assert(args_set_rel(st[k as int], st[k + 1], ups_view(ups@)[k as int].0, ups_view(ups@)[k as int].1));
        }
        k = k + 1;
    }
    proof {
        assert(st.len() == ups_view(ups@).len() + 1);
    }
}

/// Computes every length among the arguments of a syscall with parameters
/// `fields`, the way Syzkaller does, and stores them.
pub fn calculate_len_args(target: &Target, fields: &Vec<Field>, args: &mut Vec<Value>)
    requires
        target.wf(),
        len_tys_ok(target.tys@),
        calc_inputs_ok(target.tys@, old(args)@, old(args)@),
        len_updates(target.tys@, old(args)@, fields@) is Some,
    ensures
        applied(old(args)@, final(args)@, len_updates(target.tys@, old(args)@, fields@)->0),
{
    let mut ups: Vec<(Vec<usize>, u64)> = Vec::new();
    let mut cur: Option<Vec<usize>> = None;
    let base: Vec<usize> = Vec::new();
    {
        let a: &Vec<Value> = args;
        find_cal_len_arg(target, a, fields, &mut cur, &base, a, fields, &mut ups);
        let ghost u0 = ups@;
        let ghost c0 = opt_view(cur);
        let mut i: usize = 0;
        while i < a.len()
            invariant
                i <= a@.len(),
                target.wf(),
                len_tys_ok(target.tys@),
                calc_inputs_ok(target.tys@, a@, a@),
                len_updates(target.tys@, a@, fields@) is Some,
                sibling_updates(target.tys@, a@, fields@, None, Seq::empty(), a@, fields@, a@.len()) == Some((ups_view(u0), c0)),
                visit_elems_top(target.tys@, a@, fields@, c0, i as nat) == Some(
                    (ups_view(ups@).subrange(u0.len() as int, ups@.len() as int), opt_view(cur)),
                ),
                ups@.len() >= u0.len(),
                ups_view(ups@).subrange(0, u0.len() as int) == ups_view(u0),
            decreases a.len() - i,
        {
            proof {
                lemma_visit_top_prefix(target.tys@, a@, fields@, c0, a@.len(), (i + 1) as nat);
                assert(tree_ok(target.tys@, a@[i as int]));
            }
            let ghost before = ups@;
            let mut q: Vec<usize> = Vec::new();
            q.push(i);
            assert(q@ =~= seq![i]);
            visit_value(target, a, fields, &mut cur, &a[i], &q, &mut ups);
            proof {
                assert(ups_view(ups@).subrange(u0.len() as int, ups@.len() as int) =~= ups_view(before).subrange(u0.len() as int, before.len() as int) + ups_view(ups@).subrange(before.len() as int, ups@.len() as int));
                assert(ups_view(ups@).subrange(0, u0.len() as int) =~= ups_view(ups@).subrange(0, before.len() as int).subrange(0, u0.len() as int));
            }
            i = i + 1;
        }
        proof {
            assert(ups_view(ups@) =~= ups_view(u0) + ups_view(ups@).subrange(u0.len() as int, ups@.len() as int));
        }
    }
    apply_updates(args, &ups);
}

proof fn lemma_visit_top_prefix(
    tys: Seq<Type>,
    args: Seq<Value>,
    sfields: Seq<Field>,
    cur: Option<Seq<usize>>,
    n: nat,
    m: nat,
)
    requires
        m <= n <= args.len(),
        visit_elems_top(tys, args, sfields, cur, n) is Some,
    ensures
        visit_elems_top(tys, args, sfields, cur, m) is Some,
    decreases n - m,
{
    if m < n {
        lemma_visit_top_prefix(tys, args, sfields, cur, (n - 1) as nat, m);
    }
}

/// Computes every length among the arguments of a call (see
/// `calculate_len_args`), against its syscall's parameters.
pub fn calculate_len(target: &Target, call: &mut ParsedCall)
    requires
        target.wf(),
        target.has_syscall(old(call).sid),
        len_tys_ok(target.tys@),
        calc_inputs_ok(target.tys@, old(call).args@, old(call).args@),
        len_updates(target.tys@, old(call).args@, target.all_syscalls@[target.syscall_pos(old(call).sid)].params@) is Some,
    ensures
        final(call).sid == old(call).sid,
        final(call).ret == old(call).ret,
        applied(
            old(call).args@,
            final(call).args@,
            len_updates(target.tys@, old(call).args@, target.all_syscalls@[target.syscall_pos(old(call).sid)].params@)->0,
        ),
{
    let syscall = target.syscall_of(call.sid);
    calculate_len_args(target, &syscall.params, &mut call.args);
}


/// For a length type that is not an offset, the length of a value that is
/// neither an array nor a vma counts the value's bits in units of the
/// length type's bit size (8 when it is 0), rounded down:
/// `len * unit <= 8 * size < (len + 1) * unit`. So a byte-sized length of
/// a buffer holding `n` bytes is `n`.
pub proof fn lemma_len_counts_bits(tys: Seq<Type>, v: Value, offset: nat, lt: LenType)
    requires
        !lt.offset,
        !(ty_with_id(tys, v.comm.ty_id) is Vma),
        !(ty_with_id(tys, v.comm.ty_id) is Array),
    ensures
        ({
            let unit: nat = if lt.bit_size == 0 {
                8
            } else {
                lt.bit_size as nat
            };
            let len = len_of(tys, v, offset, lt);
            &&& len * unit <= value_size(tys, v) * 8
            &&& value_size(tys, v) * 8 < (len + 1) * unit
        }),
        (lt.bit_size == 0 || lt.bit_size == 8) && v.inner is DataValue && v.inner->DataValue_0.data@.len() > 0
            ==> len_of(tys, v, offset, lt) == v.inner->DataValue_0.data@.len(),
{
    let unit: nat = if lt.bit_size == 0 {
        8
    } else {
        lt.bit_size as nat
    };
    let x: nat = value_size(tys, v) * 8;
    let len = len_of(tys, v, offset, lt);
    if value_size(tys, v) != 0 {
        assert(len == x / unit);
        assert((x / unit) * unit <= x && x < (x / unit + 1) * unit) by (nonlinear_arith)
            requires
                unit > 0,
        ;
        assert(len * unit <= x && x < (len + 1) * unit);
    } else {
        assert(len == 0);
        assert(len * unit == 0) by (nonlinear_arith)
            requires
                len == 0,
        ;
        assert((len + 1) * unit == unit) by (nonlinear_arith)
            requires
                len == 0,
        ;
    }
    assert(len * unit <= value_size(tys, v) * 8 && value_size(tys, v) * 8 < (len + 1) * unit);
    if (lt.bit_size == 0 || lt.bit_size == 8) && v.inner is DataValue && v.inner->DataValue_0.data@.len() > 0 {
        let n = v.inner->DataValue_0.data@.len();
        assert(value_size(tys, v) == n);
        assert((n * 8) / 8 == n) by (nonlinear_arith);
    }
}


/// The other lengths, in units of the length type's bit size (8 when it
/// is 0), rounded down: an offset length counts the bits before the value;
/// the length of a vma counts the bits of its area; the length of an array
/// counts its bits when the length type has a width, and its elements
/// when it has none.
pub proof fn lemma_len_other_cases(tys: Seq<Type>, v: Value, offset: nat, lt: LenType)
    ensures
        ({
            let unit: nat = if lt.bit_size == 0 {
                8
            } else {
                lt.bit_size as nat
            };
            let len = len_of(tys, v, offset, lt);
            &&& lt.offset ==> len * unit <= offset * 8 < (len + 1) * unit
            &&& (!lt.offset && ty_with_id(tys, v.comm.ty_id) is Vma && v.inner is VmaValue) ==> len * unit
                <= v.inner->VmaValue_0.vma_size * 8 < (len + 1) * unit
            &&& (!lt.offset && ty_with_id(tys, v.comm.ty_id) is Array && v.inner is GroupValue && spec_bit_size(
                lt.int_fmt,
                lt.comm.size,
            ) != 0) ==> len * unit <= value_size(tys, v) * 8 < (len + 1) * unit
            &&& (!lt.offset && ty_with_id(tys, v.comm.ty_id) is Array && v.inner is GroupValue && spec_bit_size(
                lt.int_fmt,
                lt.comm.size,
            ) == 0) ==> len == v.inner->GroupValue_0.inner@.len()
        }),
{
    let unit: nat = if lt.bit_size == 0 {
        8
    } else {
        lt.bit_size as nat
    };
    let len = len_of(tys, v, offset, lt);
    let x: nat = if lt.offset {
        offset * 8
    } else if v.inner is VmaValue {
        v.inner->VmaValue_0.vma_size as nat * 8
    } else {
        value_size(tys, v) * 8
    };
    assert((x / unit) * unit <= x && x < (x / unit + 1) * unit) by (nonlinear_arith)
        requires
            unit > 0,
    ;
    assert(0 * unit == 0 && (0 + 1) * unit == unit) by (nonlinear_arith);
    if lt.offset {
        assert(len * unit <= offset * 8 < (len + 1) * unit);
    } else if ty_with_id(tys, v.comm.ty_id) is Vma && v.inner is VmaValue {
        assert(len * unit <= v.inner->VmaValue_0.vma_size * 8 < (len + 1) * unit);
    } else if ty_with_id(tys, v.comm.ty_id) is Array && v.inner is GroupValue && spec_bit_size(lt.int_fmt, lt.comm.size)
        != 0 {
        assert(len * unit <= value_size(tys, v) * 8 < (len + 1) * unit);
    }
}

} // verus!

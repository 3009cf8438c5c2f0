//! Sizes of values, which depend on their types.
use crate::target::{find_ty, has_ty, tys_sorted, Target};
use crate::ty::{Type, TypeId};
use crate::value::{IntegerValue, Value, ValueKindInner, PtrValue, ValueCommon};
use vstd::prelude::*;

verus! {

/// The type of id `id` among `tys`.
pub open spec fn ty_with_id(tys: Seq<Type>, id: TypeId) -> Type {
    tys[choose|i: int| 0 <= i < tys.len() && tys[i].spec_comm().id == id]
}

/// Every value in the tree of `v` has a type among `tys`.
pub open spec fn value_tys_known(tys: Seq<Type>, v: Value) -> bool
    decreases v,
{
    &&& has_ty(tys, v.comm.ty_id)
    &&& match v.inner {
        ValueKindInner::PtrValue(p) => match p.pointee {
            Some(b) => value_tys_known(tys, *b),
            None => true,
        },
        ValueKindInner::GroupValue(g) => forall|i: int|
            0 <= i < g.inner@.len() ==> value_tys_known(tys, #[trigger] g.inner@[i]),
        ValueKindInner::UnionValue(u) => value_tys_known(tys, *u.option),
        _ => true,
    }
}

/// Size of a value in bytes: data holds its bytes (or its recorded size
/// when it has none); a group is the sum of its elements, a struct padded
/// up to its alignment attribute; a union of variable length is the size of
/// its option; any other value is the size of its type.
pub open spec fn value_size(tys: Seq<Type>, v: Value) -> nat
    decreases v, 1nat,
{
    let ty = ty_with_id(tys, v.comm.ty_id);
    match v.inner {
        ValueKindInner::DataValue(d) => if d.data@.len() == 0 {
            d.size as nat
        } else {
            d.data@.len()
        },
        ValueKindInner::GroupValue(g) => {
            let s = sum_sizes(tys, g.inner@);
            match ty {
                Type::Struct(st) => if st.align_attr != 0 && s % (st.align_attr as nat) != 0 {
                    (s + st.align_attr - s % (st.align_attr as nat)) as nat
                } else {
                    s
                },
                _ => s,
            }
        },
        ValueKindInner::UnionValue(u) => if !ty.spec_comm().varlen {
            ty.spec_comm().size as nat
        } else {
            value_size(tys, *u.option)
        },
        _ => ty.spec_comm().size as nat,
    }
}

/// Sum of the sizes of the values.
pub open spec fn sum_sizes(tys: Seq<Type>, s: Seq<Value>) -> nat
    decreases s, 0nat,
{
    if s.len() == 0 {
        0
    } else {
        sum_sizes(tys, s.drop_last()) + value_size(tys, s.last())
    }
}

impl ValueCommon {
    /// The type of the value.
    pub fn ty<'a>(&self, target: &'a Target) -> (r: &'a Type)
        requires
            target.wf(),
            has_ty(target.tys@, self.ty_id),
        ensures
            *r == ty_with_id(target.tys@, self.ty_id),
    {
        lookup_ty(target, self.ty_id)
    }
}

/// The type of id `tid` in the target.
pub fn lookup_ty<'a>(target: &'a Target, tid: TypeId) -> (r: &'a Type)
    requires
        target.wf(),
        has_ty(target.tys@, tid),
    ensures
        *r == ty_with_id(target.tys@, tid),
        r.spec_comm().id == tid,
{
    let pos = find_ty(&target.tys, tid).unwrap();
    proof {
        let c = choose|i: int| 0 <= i < target.tys@.len() && target.tys@[i].spec_comm().id == tid;
        if c < pos {
            assert(target.tys@[c].spec_comm().id < target.tys@[pos as int].spec_comm().id);
        } else if c > pos {
            assert(target.tys@[pos as int].spec_comm().id < target.tys@[c].spec_comm().id);
        }
    }
    &target.tys[pos]
}

impl Value {
    /// The type of the value.
    pub fn ty<'a>(&self, target: &'a Target) -> (r: &'a Type)
        requires
            target.wf(),
            has_ty(target.tys@, self.comm.ty_id),
        ensures
            *r == ty_with_id(target.tys@, self.comm.ty_id),
    {
        lookup_ty(target, self.comm.ty_id)
    }

    /// Size of the value in bytes (see `value_size`).
    pub fn size(&self, target: &Target) -> (r: u64)
        requires
            target.wf(),
            value_tys_known(target.tys@, *self),
            value_size(target.tys@, *self) <= u64::MAX,
        ensures
            r == value_size(target.tys@, *self),
        decreases *self,
    {
        let ty = lookup_ty(target, self.comm.ty_id);
        match &self.inner {
            ValueKindInner::DataValue(d) => {
                if d.data.len() == 0 {
                    d.size
                } else {
                    d.data.len() as u64
                }
            },
            ValueKindInner::GroupValue(g) => {
                let mut size: u64 = 0;
                let mut i: usize = 0;
                while i < g.inner.len()
                    invariant
                        i <= g.inner@.len(),
                        target.wf(),
                        self.inner == ValueKindInner::GroupValue(*g),
                        value_tys_known(target.tys@, *self),
                        sum_sizes(target.tys@, g.inner@) <= u64::MAX,
                        size == sum_sizes(target.tys@, g.inner@.subrange(0, i as int)),
                    decreases g.inner.len() - i,
                {
                    proof {
                        assert(g.inner@.subrange(0, i + 1).drop_last() =~= g.inner@.subrange(0, i as int));
                        lemma_sum_sizes_prefix(target.tys@, g.inner@, i + 1);
                        assert(value_tys_known(target.tys@, g.inner@[i as int]));
                        assert(decreases_to!(*self => g.inner@[i as int])) by {
                            assert(decreases_to!(*self => self.inner));
                            assert(decreases_to!(self.inner => *g));
                            assert(decreases_to!(*g => g.inner));
                            assert(decreases_to!(g.inner => g.inner@));
                            assert(decreases_to!(g.inner@ => g.inner@[i as int]));
                        }
                    }
                    let s = g.inner[i].size(target);
                    size = size + s;
                    i = i + 1;
                }
                proof {
                    assert(g.inner@.subrange(0, g.inner@.len() as int) =~= g.inner@);
                }
                match ty {
                    Type::Struct(st) => {
                        if st.align_attr != 0 && size % st.align_attr != 0 {
                            size + (st.align_attr - size % st.align_attr)
                        } else {
                            size
                        }
                    },
                    _ => size,
                }
            },
            ValueKindInner::UnionValue(u) => {
                if !ty.varlen() {
                    ty.size()
                } else {
                    proof {
                        assert(decreases_to!(*self => *u.option)) by {
                            assert(decreases_to!(*self => self.inner));
                            assert(decreases_to!(self.inner => *u));
                            assert(decreases_to!(*u => u.option));
                        }
                    }
                    u.option.size(target)
                }
            },
            _ => ty.size(),
        }
    }
}

impl Value {
    /// Size of the value in bytes (see `value_size`), or `None` when it
    /// does not fit in 64 bits.
    pub fn checked_size(&self, target: &Target) -> (r: Option<u64>)
        requires
            target.wf(),
            value_tys_known(target.tys@, *self),
        ensures
            r == (if value_size(target.tys@, *self) <= u64::MAX {
                Some(value_size(target.tys@, *self) as u64)
            } else {
                None::<u64>
            }),
        decreases *self,
    {
        let ty = lookup_ty(target, self.comm.ty_id);
        match &self.inner {
            ValueKindInner::DataValue(d) => {
                if d.data.len() == 0 {
                    Some(d.size)
                } else {
                    Some(d.data.len() as u64)
                }
            },
            ValueKindInner::GroupValue(g) => {
                let mut size: u64 = 0;
                let mut i: usize = 0;
                while i < g.inner.len()
                    invariant
                        i <= g.inner@.len(),
                        target.wf(),
                        self.inner == ValueKindInner::GroupValue(*g),
                        value_tys_known(target.tys@, *self),
                        size == sum_sizes(target.tys@, g.inner@.subrange(0, i as int)),
                    decreases g.inner.len() - i,
                {
                    proof {
                        assert(g.inner@.subrange(0, i + 1).drop_last() =~= g.inner@.subrange(0, i as int));
                        lemma_sum_sizes_prefix(target.tys@, g.inner@, i + 1);
                        assert(value_tys_known(target.tys@, g.inner@[i as int]));
                        assert(decreases_to!(*self => g.inner@[i as int])) by {
                            assert(decreases_to!(*self => self.inner));
                            assert(decreases_to!(self.inner => *g));
                            assert(decreases_to!(*g => g.inner));
                            assert(decreases_to!(g.inner => g.inner@));
                            assert(decreases_to!(g.inner@ => g.inner@[i as int]));
                        }
                    }
                    match g.inner[i].checked_size(target) {
                        Some(s) => {
                            match size.checked_add(s) {
                                Some(t) => {
                                    size = t;
                                },
                                None => {
                                    return None;
                                },
                            }
                        },
                        None => {
                            return None;
                        },
                    }
                    i = i + 1;
                }
                proof {
                    assert(g.inner@.subrange(0, g.inner@.len() as int) =~= g.inner@);
                }
                match ty {
                    Type::Struct(st) => {
                        if st.align_attr != 0 && size % st.align_attr != 0 {
                            size.checked_add(st.align_attr - size % st.align_attr)
                        } else {
                            Some(size)
                        }
                    },
                    _ => Some(size),
                }
            },
            ValueKindInner::UnionValue(u) => {
                if !ty.varlen() {
                    Some(ty.size())
                } else {
                    proof {
                        assert(decreases_to!(*self => *u.option)) by {
                            assert(decreases_to!(*self => self.inner));
                            assert(decreases_to!(self.inner => *u));
                            assert(decreases_to!(*u => u.option));
                        }
                    }
                    u.option.checked_size(target)
                }
            },
            _ => Some(ty.size()),
        }
    }
}

/// The sum over a prefix is at most the sum over the whole sequence.
proof fn lemma_sum_sizes_prefix(tys: Seq<Type>, s: Seq<Value>, n: int)
    requires
        0 <= n <= s.len(),
    ensures
        sum_sizes(tys, s.subrange(0, n)) <= sum_sizes(tys, s),
    decreases s.len(),
{
    if n < s.len() {
        assert(s.drop_last() =~= s.subrange(0, s.len() - 1));
        lemma_sum_sizes_prefix(tys, s.drop_last(), n);
        assert(s.drop_last().subrange(0, n) =~= s.subrange(0, n));
    } else {
        assert(s.subrange(0, n) =~= s);
    }
}


/// A union value whose type is not of variable length is as large as its
/// type, whatever member it holds; one of variable length is as large as
/// its member.
pub proof fn lemma_union_size(tys: Seq<Type>, v: Value)
    requires
        v.inner is UnionValue,
    ensures
        !ty_with_id(tys, v.comm.ty_id).spec_comm().varlen ==> value_size(tys, v) == ty_with_id(
            tys,
            v.comm.ty_id,
        ).spec_comm().size,
        ty_with_id(tys, v.comm.ty_id).spec_comm().varlen ==> value_size(tys, v) == value_size(
            tys,
            *v.inner->UnionValue_0.option,
        ),
{
}

/// Two union values of one type that is not of variable length have the
/// same size, whichever members they hold.
pub proof fn lemma_union_size_fixed(tys: Seq<Type>, a: Value, b: Value)
    requires
        a.inner is UnionValue,
        b.inner is UnionValue,
        a.comm.ty_id == b.comm.ty_id,
        !ty_with_id(tys, a.comm.ty_id).spec_comm().varlen,
    ensures
        value_size(tys, a) == value_size(tys, b),
{
    lemma_union_size(tys, a);
    lemma_union_size(tys, b);
}


/// A struct value with an alignment attribute `a` is padded: its size is
/// the smallest multiple of `a` that holds its fields. Without one, and
/// for arrays, the size is the sum of the members' sizes.
pub proof fn lemma_group_size(tys: Seq<Type>, v: Value)
    requires
        v.inner is GroupValue,
    ensures
        ({
            let s = sum_sizes(tys, v.inner->GroupValue_0.inner@);
            let sz = value_size(tys, v);
            &&& (ty_with_id(tys, v.comm.ty_id) matches Type::Struct(st) && st.align_attr != 0) ==> {
                let a = ty_with_id(tys, v.comm.ty_id)->Struct_0.align_attr as nat;
                &&& sz % a == 0
                &&& s <= sz < s + a
            }
            &&& !(ty_with_id(tys, v.comm.ty_id) matches Type::Struct(st) && st.align_attr != 0) ==> sz == s
        }),
{
    let s = sum_sizes(tys, v.inner->GroupValue_0.inner@);
    if ty_with_id(tys, v.comm.ty_id) matches Type::Struct(st) && st.align_attr != 0 {
        let a = ty_with_id(tys, v.comm.ty_id)->Struct_0.align_attr as nat;
        let r = s % a;
        assert(0 <= r < a) by (nonlinear_arith)
            requires
                a > 0,
                r == s % a,
        ;
        if r != 0 {
            assert(((s + a - r) as int) % (a as int) == 0) by {
                vstd::arithmetic::div_mod::lemma_fundamental_div_mod(s as int, a as int);
                assert((s + a - r) as int == (s as int / a as int + 1) * (a as int)) by (nonlinear_arith)
                    requires
                        s as int == (a as int) * (s as int / a as int) + r,
                ;
                vstd::arithmetic::div_mod::lemma_mod_multiples_basic(s as int / a as int + 1, a as int);
            }
        }
    }
}

/// The size of a data value is the number of bytes it holds, or, when it
/// holds none, the size recorded for it.
pub proof fn lemma_data_size(tys: Seq<Type>, v: Value)
    requires
        v.inner is DataValue,
    ensures
        v.inner->DataValue_0.data@.len() > 0 ==> value_size(tys, v) == v.inner->DataValue_0.data@.len(),
        v.inner->DataValue_0.data@.len() == 0 ==> value_size(tys, v) == v.inner->DataValue_0.size,
{
}

} // verus!

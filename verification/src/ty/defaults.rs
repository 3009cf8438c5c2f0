//! Default values of types, and the test for them.
use crate::ty::buffer::{data_is_default, default_data_size, is_default_data_of};
use crate::ty::group::{ArrayType, Field, StructType, UnionType};
use crate::ty::common::CommonInfo;
use crate::ty::{Dir, Type};
use crate::value::{
    addr_is_special, GroupValue, ResValue, ResValueKind, UnionValue, Value, ValueCommon,
    ValueKindInner, IntegerValue, VmaValue,
};
use vstd::prelude::*;

verus! {

impl Type {
    /// Default values of this type can be built: every buffer size that the
    /// default value holds fits in memory, and every union on the way has a
    /// field.
    pub open spec fn default_ok(&self) -> bool
        decreases self,
    {
        match self {
            Type::BufferBlob(t) => t.comm.size <= usize::MAX,
            Type::BufferString(t) => t.comm.size <= usize::MAX,
            Type::BufferFilename(t) => t.comm.size <= usize::MAX,
            Type::Array(t) => t.spec_fixed_len() ==> t.elem.default_ok(),
            Type::Struct(t) => forall|i: int|
                0 <= i < t.fields@.len() ==> (#[trigger] t.fields@[i]).ty.default_ok(),
            Type::Union(t) => t.fields@.len() > 0 && t.fields@[0].ty.default_ok(),
            _ => true,
        }
    }

    /// `v` is the default value of this type in direction `dir`: integers
    /// hold their default special value, pointers and vmas are null
    /// specials, resources are null, buffers hold their default bytes,
    /// fixed-length arrays hold that many default elements and other arrays
    /// none, structs hold one default value per field, and unions hold the
    /// default value of their first field.
    pub open spec fn is_default_of(&self, dir: Dir, v: Value) -> bool
        decreases self,
    {
        &&& v.comm == (ValueCommon { ty_id: self.spec_comm().id, dir })
        &&& match self {
            Type::Res(t) => v.inner == ValueKindInner::ResValue(ResValue {
                comm: v.comm,
                kind: ResValueKind::Null,
                val: t.spec_default_special_val(),
                op_div: 0,
                op_add: 0,
            }),
            Type::Const(t) => v.inner == ValueKindInner::IntegerValue(
                IntegerValue { comm: v.comm, val: t.spec_default_special_value() },
            ),
            Type::Int(t) => v.inner == ValueKindInner::IntegerValue(
                IntegerValue { comm: v.comm, val: t.spec_default_special_value() },
            ),
            Type::Flags(t) => v.inner == ValueKindInner::IntegerValue(
                IntegerValue { comm: v.comm, val: t.spec_default_special_value() },
            ),
            Type::Len(t) => v.inner == ValueKindInner::IntegerValue(
                IntegerValue { comm: v.comm, val: t.spec_default_special_value() },
            ),
            Type::Proc(t) => v.inner == ValueKindInner::IntegerValue(
                IntegerValue { comm: v.comm, val: t.spec_default_special_value() },
            ),
            Type::Csum(t) => v.inner == ValueKindInner::IntegerValue(
                IntegerValue { comm: v.comm, val: t.spec_default_special_value() },
            ),
            Type::Vma(_) => v.inner == ValueKindInner::VmaValue(
                VmaValue { comm: v.comm, addr: 0, vma_size: 0 },
            ),
            Type::Ptr(_) => v.inner matches ValueKindInner::PtrValue(p) && p.comm == v.comm
                && p.addr == 0 && p.pointee is None,
            Type::BufferBlob(t) => v.inner matches ValueKindInner::DataValue(d)
                && is_default_data_of(t.comm, t.vals@, dir, d),
            Type::BufferString(t) => v.inner matches ValueKindInner::DataValue(d)
                && is_default_data_of(t.comm, t.vals@, dir, d),
            Type::BufferFilename(t) => v.inner matches ValueKindInner::DataValue(d)
                && is_default_data_of(t.comm, t.vals@, dir, d),
            Type::Array(t) => v.inner matches ValueKindInner::GroupValue(g) && g.comm == v.comm
                && if t.spec_fixed_len() {
                &&& g.inner@.len() == t.spec_min_len()
                &&& forall|i: int|
                    0 <= i < g.inner@.len() ==> t.elem.is_default_of(dir, #[trigger] g.inner@[i])
            } else {
                g.inner@.len() == 0
            },
            Type::Struct(t) => v.inner matches ValueKindInner::GroupValue(g) && g.comm == v.comm
                && g.inner@.len() == t.fields@.len() && forall|i: int|
                0 <= i < t.fields@.len() ==> (#[trigger] t.fields@[i]).ty.is_default_of(
                    dir,
                    g.inner@[i],
                ),
            Type::Union(t) => v.inner matches ValueKindInner::UnionValue(u) && u.comm == v.comm
                && u.index == 0 && t.fields@.len() > 0 && t.fields@[0].ty.is_default_of(
                dir,
                *u.option,
            ),
        }
    }

    /// What `is_default` answers: integers hold their default special
    /// value; vmas are null specials; pointers are specials; resources are
    /// null, hold the first special value and carry no arithmetic; buffers
    /// pass `data_is_default`; arrays of variable length are empty and the
    /// elements of fixed-length ones are default; the fields of a struct that
    /// have a value are default; a union holds its first field, whose value
    /// is default. A value of another kind than the type's is not default.
    pub open spec fn spec_is_default(&self, v: Value) -> bool
        decreases self,
    {
        match self {
            Type::Res(t) => v.inner matches ValueKindInner::ResValue(r) && r.kind is Null && r.val
                == t.spec_default_special_val() && r.op_add == 0 && r.op_div == 0,
            Type::Const(t) => v.inner matches ValueKindInner::IntegerValue(i) && i.val
                == t.spec_default_special_value(),
            Type::Int(t) => v.inner matches ValueKindInner::IntegerValue(i) && i.val
                == t.spec_default_special_value(),
            Type::Flags(t) => v.inner matches ValueKindInner::IntegerValue(i) && i.val
                == t.spec_default_special_value(),
            Type::Len(t) => v.inner matches ValueKindInner::IntegerValue(i) && i.val
                == t.spec_default_special_value(),
            Type::Proc(t) => v.inner matches ValueKindInner::IntegerValue(i) && i.val
                == t.spec_default_special_value(),
            Type::Csum(t) => v.inner matches ValueKindInner::IntegerValue(i) && i.val
                == t.spec_default_special_value(),
            Type::Vma(_) => v.inner matches ValueKindInner::VmaValue(x) && x.vma_size == 0
                && x.addr == 0,
            Type::Ptr(_) => v.inner matches ValueKindInner::PtrValue(p) && p.pointee is None
                && addr_is_special(p.addr),
            Type::BufferBlob(t) => v.inner matches ValueKindInner::DataValue(d) && data_is_default(
                t.comm,
                t.vals@,
                d,
            ),
            Type::BufferString(t) => v.inner matches ValueKindInner::DataValue(d)
                && data_is_default(t.comm, t.vals@, d),
            Type::BufferFilename(t) => v.inner matches ValueKindInner::DataValue(d)
                && data_is_default(t.comm, t.vals@, d),
            Type::Array(t) => v.inner matches ValueKindInner::GroupValue(g) && if t.spec_fixed_len() {
                forall|i: int| 0 <= i < g.inner@.len() ==> t.elem.spec_is_default(#[trigger] g.inner@[i])
            } else {
                g.inner@.len() == 0
            },
            Type::Struct(t) => v.inner matches ValueKindInner::GroupValue(g) && forall|i: int|
                0 <= i < t.fields@.len() && i < g.inner@.len() ==> (#[trigger] t.fields@[i]).ty.spec_is_default(
                    g.inner@[i],
                ),
            Type::Union(t) => v.inner matches ValueKindInner::UnionValue(u) && u.index == 0
                && t.fields@.len() > 0 && t.fields@[0].ty.spec_is_default(*u.option),
        }
    }

    /// The default value in direction `dir` holds a buffer whose default
    /// `is_default` rejects: in direction `Out` one of fixed non-zero size
    /// (its default carries no bytes), else one whose first special value
    /// is not as long as the buffer's default size.
    pub open spec fn default_breaks(&self, dir: Dir) -> bool
        decreases self,
    {
        match self {
            Type::BufferBlob(t) => buffer_default_breaks(t.comm, t.vals@, dir),
            Type::BufferString(t) => buffer_default_breaks(t.comm, t.vals@, dir),
            Type::BufferFilename(t) => buffer_default_breaks(t.comm, t.vals@, dir),
            Type::Array(t) => t.spec_fixed_len() && t.spec_min_len() > 0 && t.elem.default_breaks(dir),
            Type::Struct(t) => exists|i: int|
                0 <= i < t.fields@.len() && (#[trigger] t.fields@[i]).ty.default_breaks(dir),
            Type::Union(t) => t.fields@.len() > 0 && t.fields@[0].ty.default_breaks(dir),
            _ => false,
        }
    }

    /// The default value of this type in direction `dir`.
    pub fn default_value(&self, dir: Dir) -> (r: Value)
        requires
            self.default_ok(),
        ensures
            self.is_default_of(dir, r),
        decreases self, 1nat,
    {
        match self {
            Type::Res(t) => t.default_value(dir),
            Type::Const(t) => t.default_value(dir),
            Type::Int(t) => t.default_value(dir),
            Type::Flags(t) => t.default_value(dir),
            Type::Len(t) => t.default_value(dir),
            Type::Proc(t) => t.default_value(dir),
            Type::Csum(t) => t.default_value(dir),
            Type::Vma(t) => t.default_value(dir),
            Type::Ptr(t) => t.default_value(dir),
            Type::BufferBlob(t) => t.default_value(dir),
            Type::BufferString(t) => t.default_value(dir),
            Type::BufferFilename(t) => t.default_value(dir),
            Type::Array(t) => t.default_value(dir),
            Type::Struct(t) => t.default_value(dir),
            Type::Union(t) => t.default_value(dir),
        }
    }

    /// Whether `val` is a default value of this type.
    pub fn is_default(&self, val: &Value) -> (r: bool)
        ensures
            r == self.spec_is_default(*val),
        decreases self, 1nat,
    {
        match self {
            Type::Res(t) => match &val.inner {
                ValueKindInner::ResValue(_) => t.is_default(val),
                _ => false,
            },
            Type::Const(t) => match &val.inner {
                ValueKindInner::IntegerValue(_) => t.is_default(val),
                _ => false,
            },
            Type::Int(t) => match &val.inner {
                ValueKindInner::IntegerValue(_) => t.is_default(val),
                _ => false,
            },
            Type::Flags(t) => match &val.inner {
                ValueKindInner::IntegerValue(_) => t.is_default(val),
                _ => false,
            },
            Type::Len(t) => match &val.inner {
                ValueKindInner::IntegerValue(_) => t.is_default(val),
                _ => false,
            },
            Type::Proc(t) => match &val.inner {
                ValueKindInner::IntegerValue(_) => t.is_default(val),
                _ => false,
            },
            Type::Csum(t) => match &val.inner {
                ValueKindInner::IntegerValue(_) => t.is_default(val),
                _ => false,
            },
            Type::Vma(t) => match &val.inner {
                ValueKindInner::VmaValue(_) => t.is_default(val),
                _ => false,
            },
            Type::Ptr(t) => match &val.inner {
                ValueKindInner::PtrValue(_) => t.is_default(val),
                _ => false,
            },
            Type::BufferBlob(t) => match &val.inner {
                ValueKindInner::DataValue(_) => t.is_default(val),
                _ => false,
            },
            Type::BufferString(t) => match &val.inner {
                ValueKindInner::DataValue(_) => t.is_default(val),
                _ => false,
            },
            Type::BufferFilename(t) => match &val.inner {
                ValueKindInner::DataValue(_) => t.is_default(val),
                _ => false,
            },
            Type::Array(t) => t.is_default(val),
            Type::Struct(t) => t.is_default(val),
            Type::Union(t) => t.is_default(val),
        }
    }
}

impl ArrayType {
    /// Default value: as many default elements as a fixed length asks for,
    /// else none.
    pub fn default_value(&self, dir: Dir) -> (r: Value)
        requires
            Type::Array(*self).default_ok(),
        ensures
            Type::Array(*self).is_default_of(dir, r),
        decreases Type::Array(*self), 0nat,
    {
        let mut elems: Vec<Value> = Vec::new();
        match self.range {
            Some((start, end)) => {
                if start == end {
                    let mut i: u64 = 0;
                    while i < start
                        invariant
                            i <= start,
                            self.range == Some((start, end)),
                            start == end,
                            self.elem.default_ok(),
                            elems@.len() == i,
                            forall|j: int| 0 <= j < i ==> self.elem.is_default_of(dir, #[trigger] elems@[j]),
                        decreases start - i,
                    {
                        proof {
                            lemma_array_elem_decreases(*self);
                        }
                        let v = self.elem.default_value(dir);
                        elems.push(v);
                        i = i + 1;
                    }
                }
            },
            None => {},
        }
        Value::from_group(GroupValue::new(self.comm.id, dir, elems))
    }

    /// Whether an array value is default: empty for a variable length,
    /// else made of default elements.
    pub fn is_default(&self, val: &Value) -> (r: bool)
        ensures
            r == Type::Array(*self).spec_is_default(*val),
        decreases Type::Array(*self), 0nat,
    {
        match &val.inner {
            ValueKindInner::GroupValue(g) => {
                if !self.fixed_len() {
                    return g.inner.len() == 0;
                }
                let mut i: usize = 0;
                while i < g.inner.len()
                    invariant
                        i <= g.inner@.len(),
                        self.spec_fixed_len(),
                        val.inner == ValueKindInner::GroupValue(*g),
                        forall|j: int| 0 <= j < i ==> self.elem.spec_is_default(#[trigger] g.inner@[j]),
                    decreases g.inner.len() - i,
                {
                    proof {
                        lemma_array_elem_decreases(*self);
                    }
                    if !self.elem.is_default(&g.inner[i]) {
                        return false;
                    }
                    i = i + 1;
                }
                true
            },
            _ => false,
        }
    }
}

impl StructType {
    /// Default value: the default value of each field, in order.
    pub fn default_value(&self, dir: Dir) -> (r: Value)
        requires
            Type::Struct(*self).default_ok(),
        ensures
            Type::Struct(*self).is_default_of(dir, r),
        decreases Type::Struct(*self), 0nat,
    {
        let mut inner: Vec<Value> = Vec::new();
        let mut i: usize = 0;
        while i < self.fields.len()
            invariant
                i <= self.fields@.len(),
                Type::Struct(*self).default_ok(),
                inner@.len() == i,
                forall|j: int| 0 <= j < i ==> (#[trigger] self.fields@[j]).ty.is_default_of(dir, inner@[j]),
            decreases self.fields.len() - i,
        {
            let v = self.fields[i].ty.default_value(dir);
            inner.push(v);
            i = i + 1;
        }
        Value::from_group(GroupValue::new(self.comm.id, dir, inner))
    }

    /// Whether a struct value is default: each field that has a value
    /// holds a default one.
    pub fn is_default(&self, val: &Value) -> (r: bool)
        ensures
            r == Type::Struct(*self).spec_is_default(*val),
        decreases Type::Struct(*self), 0nat,
    {
        match &val.inner {
            ValueKindInner::GroupValue(g) => {
                let mut i: usize = 0;
                while i < self.fields.len() && i < g.inner.len()
                    invariant
                        i <= self.fields@.len(),
                        i <= g.inner@.len(),
                        val.inner == ValueKindInner::GroupValue(*g),
                        forall|j: int| 0 <= j < i ==> (#[trigger] self.fields@[j]).ty.spec_is_default(g.inner@[j]),
                    decreases self.fields.len() - i,
                {
                    proof {
                        lemma_field_decreases(Type::Struct(*self), self.fields@, i as int);
                    }
                    if !self.fields[i].ty.is_default(&g.inner[i]) {
                        return false;
                    }
                    i = i + 1;
                }
                true
            },
            _ => false,
        }
    }
}

impl UnionType {
    /// Default value: the first field holding its default value.
    pub fn default_value(&self, dir: Dir) -> (r: Value)
        requires
            Type::Union(*self).default_ok(),
        ensures
            Type::Union(*self).is_default_of(dir, r),
        decreases Type::Union(*self), 0nat,
    {
        let inner = self.fields[0].ty.default_value(dir);
        Value::from_union(UnionValue::new(self.comm.id, dir, 0, inner))
    }

    /// Whether a union value holds its first field with a default value.
    pub fn is_default(&self, val: &Value) -> (r: bool)
        ensures
            r == Type::Union(*self).spec_is_default(*val),
        decreases Type::Union(*self), 0nat,
    {
        match &val.inner {
            ValueKindInner::UnionValue(u) => {
                if u.index != 0 || self.fields.len() == 0 {
                    return false;
                }
                proof {
                    lemma_field_decreases(Type::Union(*self), self.fields@, 0);
                }
                self.fields[0].ty.is_default(&u.option)
            },
            _ => false,
        }
    }
}

pub proof fn lemma_array_elem_decreases(t: ArrayType)
    ensures
        decreases_to!(Type::Array(t) => *t.elem),
{
    let ty = Type::Array(t);
    assert(ty->Array_0 == t);
    assert(decreases_to!(ty => t));
    assert(decreases_to!(t => t.elem));
}

pub proof fn lemma_field_decreases(ty: Type, fields: Seq<Field>, i: int)
    requires
        (ty matches Type::Struct(t) && t.fields@ == fields) || (ty matches Type::Union(u)
            && u.fields@ == fields),
        0 <= i < fields.len(),
    ensures
        decreases_to!(ty => *fields[i].ty),
{
    match ty {
        Type::Struct(t) => {
            assert(decreases_to!(ty => t));
            assert(decreases_to!(t => t.fields));
            assert(decreases_to!(t.fields => t.fields@));
            assert(decreases_to!(t.fields@ => t.fields@[i]));
            assert(decreases_to!(t.fields@[i] => t.fields@[i].ty));
        },
        Type::Union(t) => {
            assert(decreases_to!(ty => t));
            assert(decreases_to!(t => t.fields));
            assert(decreases_to!(t.fields => t.fields@));
            assert(decreases_to!(t.fields@ => t.fields@[i]));
            assert(decreases_to!(t.fields@[i] => t.fields@[i].ty));
        },
        _ => {},
    }
}

/// The default value of a type is default, except where it holds a buffer
/// whose default `is_default` rejects (see `default_breaks`).
/// A buffer's default value in direction `dir` is rejected by `is_default`.
pub open spec fn buffer_default_breaks(comm: CommonInfo, vals: Seq<Vec<u8>>, dir: Dir) -> bool {
    if dir == Dir::Out {
        default_data_size(comm) != 0
    } else {
        vals.len() > 0 && vals[0]@.len() != default_data_size(comm)
    }
}

pub proof fn lemma_default_value_is_default(ty: Type, dir: Dir, v: Value)
    requires
        ty.default_ok(),
        ty.is_default_of(dir, v),
        !ty.default_breaks(dir),
    ensures
        ty.spec_is_default(v),
    decreases ty,
{
    match ty {
        Type::Array(t) => {
            if let ValueKindInner::GroupValue(g) = v.inner {
                if t.spec_fixed_len() {
                    assert forall|i: int| 0 <= i < g.inner@.len() implies t.elem.spec_is_default(
                        #[trigger] g.inner@[i],
                    ) by {
                        lemma_default_value_is_default(*t.elem, dir, g.inner@[i]);
                    }
                }
            }
        },
        Type::Struct(t) => {
            if let ValueKindInner::GroupValue(g) = v.inner {
                assert forall|i: int|
                    0 <= i < t.fields@.len() && i < g.inner@.len() implies (#[trigger] t.fields@[i]).ty.spec_is_default(
                    g.inner@[i],
                ) by {
                    lemma_default_value_is_default(*t.fields@[i].ty, dir, g.inner@[i]);
                }
            }
        },
        Type::Union(t) => {
            if let ValueKindInner::UnionValue(u) = v.inner {
                lemma_default_value_is_default(*t.fields@[0].ty, dir, *u.option);
            }
        },
        _ => {},
    }
}

} // verus!

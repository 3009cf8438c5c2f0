//! Resource types.
use crate::ty::common::CommonInfo;
use crate::ty::{BinaryFormat, Dir};
use crate::value::{ResValue, ResValueKind, Value, ValueCommon, ValueKindInner};
use crate::strings::strs_view;
use vstd::prelude::*;

verus! {

/// A resource: a value one call produces and another consumes.
#[derive(Debug)]
pub struct ResType {
    pub comm: CommonInfo,
    pub bin_fmt: BinaryFormat,
    /// Name of the resource.
    pub name: String,
    /// Kinds of the resource, from the most general one to this one.
    pub kinds: Vec<String>,
    /// Special values of the resource.
    pub vals: Vec<u64>,
}

impl ResType {
    pub fn id(&self) -> (r: crate::ty::TypeId)
        ensures
            r == self.comm.id,
    {
        self.comm.id
    }
    pub fn name(&self) -> (r: &str)
        ensures
            r@ == self.comm.name@,
    {
        self.comm.name.as_str()
    }
    pub fn size(&self) -> (r: u64)
        ensures
            r == self.comm.size,
    {
        self.comm.size
    }
    pub fn align(&self) -> (r: u64)
        ensures
            r == self.comm.align,
    {
        self.comm.align
    }
    pub fn optional(&self) -> (r: bool)
        ensures
            r == self.comm.optional,
    {
        self.comm.optional
    }
    pub fn varlen(&self) -> (r: bool)
        ensures
            r == self.comm.varlen,
    {
        self.comm.varlen
    }
    /// Name with any template arguments (from the first `[`) cut off.
    pub fn template_name(&self) -> (r: String)
        ensures
            r@ == crate::strings::prefix_before_bracket(self.comm.name@),
    {
        self.comm.template_name()
    }

    pub fn comm(&self) -> (r: &crate::ty::common::CommonInfo)
        ensures
            *r == self.comm,
    {
        &self.comm
    }
    pub fn bitfield_off(&self) -> (r: u64)
        ensures
            r == 0,
    {
        0
    }
    pub fn bitfield_len(&self) -> (r: u64)
        ensures
            r == 0,
    {
        0
    }
    pub fn bitfield_unit(&self) -> (r: u64)
        ensures
            r == self.comm.size,
    {
        self.comm.size
    }
    pub fn bitfield_unit_off(&self) -> (r: u64)
        ensures
            r == 0,
    {
        0
    }
    pub fn is_bitfield(&self) -> (r: bool)
        ensures
            r == false,
    {
        false
    }
    pub fn format(&self) -> (r: BinaryFormat)
        ensures
            r == self.bin_fmt,
    {
        self.bin_fmt
    }

    pub fn res_name(&self) -> (r: &str)
        ensures
            r@ == self.name@,
    {
        self.name.as_str()
    }

    pub fn kinds(&self) -> (r: &[String])
        ensures
            r@ == self.kinds@,
    {
        self.kinds.as_slice()
    }

    pub fn special_vals(&self) -> (r: &[u64])
        ensures
            r@ == self.vals@,
    {
        self.vals.as_slice()
    }

    pub open spec fn spec_default_special_val(&self) -> u64 {
        if self.vals@.len() > 0 {
            self.vals@[0]
        } else {
            0
        }
    }

    /// The first special value, or 0.
    pub fn default_special_val(&self) -> (r: u64)
        ensures
            r == self.spec_default_special_val(),
    {
        if self.vals.len() > 0 {
            self.vals[0]
        } else {
            0
        }
    }

    /// Default value: a null resource holding the first special value.
    pub fn default_value(&self, dir: Dir) -> (r: Value)
        ensures
            r.comm == (ValueCommon { ty_id: self.comm.id, dir }),
            r.inner == ValueKindInner::ResValue(ResValue {
                comm: ValueCommon { ty_id: self.comm.id, dir },
                kind: ResValueKind::Null,
                val: self.spec_default_special_val(),
                op_div: 0,
                op_add: 0,
            }),
    {
        Value::from_res(ResValue::new_null(self.comm.id, dir, self.default_special_val()))
    }

    /// Whether a resource value is null, holds the first special value and
    /// has no arithmetic applied.
    pub fn is_default(&self, val: &Value) -> (r: bool)
        requires
            val.inner is ResValue,
        ensures
            r == {
                let v = val.inner->ResValue_0;
                v.kind is Null && v.val == self.spec_default_special_val() && v.op_add == 0
                    && v.op_div == 0
            },
    {
        match &val.inner {
            ValueKindInner::ResValue(v) => match v.kind {
                ResValueKind::Null => v.val == self.default_special_val() && v.op_add == 0
                    && v.op_div == 0,
                _ => false,
            },
            _ => false,
        }
    }

    /// `self` is a subtype of `other` when the kinds of `other` start the
    /// kinds of `self`.
    pub fn is_subtype_of(&self, other: &ResType) -> (r: bool)
        ensures
            r == strs_view(other.kinds@).is_prefix_of(strs_view(self.kinds@)),
    {
        if other.kinds.len() > self.kinds.len() {
            return false;
        }
        let mut i: usize = 0;
        while i < other.kinds.len()
            invariant
                other.kinds@.len() <= self.kinds@.len(),
                i <= other.kinds@.len(),
                forall|j: int| 0 <= j < i ==> self.kinds@[j]@ == other.kinds@[j]@,
            decreases other.kinds.len() - i,
        {
            if self.kinds[i] != other.kinds[i] {
                assert(strs_view(self.kinds@)[i as int] != strs_view(other.kinds@)[i as int]);
                return false;
            }
            i = i + 1;
        }
        assert(strs_view(other.kinds@) =~= strs_view(self.kinds@).subrange(0, other.kinds@.len() as int));
        true
    }
}

/// `a` and `b` hold the same resource description.
pub open spec fn res_same(a: ResType, b: ResType) -> bool {
    &&& a.comm == b.comm
    &&& a.bin_fmt == b.bin_fmt
    &&& a.name == b.name
    &&& a.kinds@ == b.kinds@
    &&& a.vals@ == b.vals@
}

impl Clone for ResType {
    fn clone(&self) -> (r: Self)
        ensures
            res_same(r, *self),
    {
        let kinds = self.kinds.clone();
        let vals = self.vals.clone();
        assert(kinds@ =~= self.kinds@);
        assert(vals@ =~= self.vals@);
        ResType { comm: self.comm.clone(), bin_fmt: self.bin_fmt, name: self.name.clone(), kinds, vals }
    }
}

#[derive(Debug)]
pub struct ResTypeBuilder {
    pub comm: CommonInfo,
    pub bin_fmt: BinaryFormat,
    pub name: String,
    pub kinds: Vec<String>,
    pub vals: Vec<u64>,
}

impl ResTypeBuilder {
    pub fn new(comm: CommonInfo) -> (r: Self)
        ensures
            r.comm == comm,
            r.bin_fmt == BinaryFormat::Native,
            r.name@.len() == 0,
            r.kinds@.len() == 0,
            r.vals@.len() == 0,
    {
        Self { comm, bin_fmt: BinaryFormat::Native, name: String::new(), kinds: Vec::new(), vals: Vec::new() }
    }

    pub fn comm(&mut self, comm: CommonInfo) -> (r: &mut Self)
        ensures
            *r == (ResTypeBuilder { comm: comm, ..*old(self) }),
            *final(self) == *final(r),
    {
        self.comm = comm;
        self
    }
    pub fn bin_fmt(&mut self, bin_fmt: BinaryFormat) -> (r: &mut Self)
        ensures
            *r == (ResTypeBuilder { bin_fmt: bin_fmt, ..*old(self) }),
            *final(self) == *final(r),
    {
        self.bin_fmt = bin_fmt;
        self
    }
    pub fn res_name(&mut self, res_name: String) -> (r: &mut Self)
        ensures
            *r == (ResTypeBuilder { name: res_name, ..*old(self) }),
            *final(self) == *final(r),
    {
        self.name = res_name;
        self
    }
    pub fn kinds(&mut self, kinds: Vec<String>) -> (r: &mut Self)
        ensures
            *r == (ResTypeBuilder { kinds: kinds, ..*old(self) }),
            *final(self) == *final(r),
    {
        self.kinds = kinds;
        self
    }
    pub fn vals(&mut self, vals: Vec<u64>) -> (r: &mut Self)
        ensures
            *r == (ResTypeBuilder { vals: vals, ..*old(self) }),
            *final(self) == *final(r),
    {
        self.vals = vals;
        self
    }

    pub fn build(self) -> (r: ResType)
        ensures
            r == (ResType { comm: self.comm, bin_fmt: self.bin_fmt, name: self.name, kinds: self.kinds, vals: self.vals }),
    {
        ResType { comm: self.comm, bin_fmt: self.bin_fmt, name: self.name, kinds: self.kinds, vals: self.vals }
    }
}

} // verus!

//! Pointer-like types: vma and ptr.
use crate::ty::common::CommonInfo;
use crate::ty::{Dir, TypeId};
use crate::value::{addr_is_special, PtrValue, Value, ValueCommon, ValueKindInner, VmaValue};
use vstd::prelude::*;

verus! {

/// A range of pages.
#[derive(Debug)]
pub struct VmaType {
    pub comm: CommonInfo,
    pub range: Option<(u64, u64)>,
}

impl VmaType {
    pub fn id(&self) -> (r: crate::ty::TypeId)
        ensures
            r == self.comm.id,
    {
        self.comm.id
    }
    pub fn name(&self) -> (r: &str)
        ensures
            r@ == self.comm.name@,
    {
        self.comm.name.as_str()
    }
    pub fn size(&self) -> (r: u64)
        ensures
            r == self.comm.size,
    {
        self.comm.size
    }
    pub fn align(&self) -> (r: u64)
        ensures
            r == self.comm.align,
    {
        self.comm.align
    }
    pub fn optional(&self) -> (r: bool)
        ensures
            r == self.comm.optional,
    {
        self.comm.optional
    }
    pub fn varlen(&self) -> (r: bool)
        ensures
            r == self.comm.varlen,
    {
        self.comm.varlen
    }
    /// Name with any template arguments (from the first `[`) cut off.
    pub fn template_name(&self) -> (r: String)
        ensures
            r@ == crate::strings::prefix_before_bracket(self.comm.name@),
    {
        self.comm.template_name()
    }

    pub fn comm(&self) -> (r: &crate::ty::common::CommonInfo)
        ensures
            *r == self.comm,
    {
        &self.comm
    }
    pub fn bitfield_off(&self) -> (r: u64)
        ensures
            r == 0,
    {
        0
    }
    pub fn bitfield_len(&self) -> (r: u64)
        ensures
            r == 0,
    {
        0
    }
    pub fn bitfield_unit(&self) -> (r: u64)
        ensures
            r == self.comm.size,
    {
        self.comm.size
    }
    pub fn bitfield_unit_off(&self) -> (r: u64)
        ensures
            r == 0,
    {
        0
    }
    pub fn is_bitfield(&self) -> (r: bool)
        ensures
            r == false,
    {
        false
    }
    pub fn bin_fmt(&self) -> (r: crate::ty::BinaryFormat)
        ensures
            r == crate::ty::BinaryFormat::Native,
    {
        crate::ty::BinaryFormat::Native
    }
    pub fn format(&self) -> (r: crate::ty::BinaryFormat)
        ensures
            r == crate::ty::BinaryFormat::Native,
    {
        crate::ty::BinaryFormat::Native
    }
    /// Inclusive range `(start, end)` of the page count, if restricted.
    pub fn range(&self) -> (r: Option<(u64, u64)>)
        ensures
            r == self.range,
    {
        self.range
    }

    /// Default value: the null special vma.
    pub fn default_value(&self, dir: Dir) -> (r: Value)
        ensures
            r.comm == (ValueCommon { ty_id: self.comm.id, dir }),
            r.inner == ValueKindInner::VmaValue(VmaValue {
                comm: ValueCommon { ty_id: self.comm.id, dir },
                addr: 0,
                vma_size: 0,
            }),
    {
        Value::from_vma(VmaValue::new_special(self.comm.id, dir, 0))
    }

    /// Whether a vma value is the null special vma.
    pub fn is_default(&self, val: &Value) -> (r: bool)
        requires
            val.inner is VmaValue,
        ensures
            r == (val.inner->VmaValue_0.vma_size == 0 && val.inner->VmaValue_0.addr == 0),
    {
        match &val.inner {
            ValueKindInner::VmaValue(v) => v.is_special() && v.addr == 0,
            _ => false,
        }
    }
}

#[derive(Debug)]
pub struct VmaTypeBuilder {
    pub comm: CommonInfo,
    pub range: Option<(u64, u64)>,
}

impl VmaTypeBuilder {
    pub fn new(comm: CommonInfo) -> (r: Self)
        ensures
            r.comm == comm,
            r.range is None,
    {
        Self { comm, range: None }
    }

    pub fn comm(&mut self, comm: CommonInfo) -> (r: &mut Self)
        ensures
            *r == (VmaTypeBuilder { comm: comm, ..*old(self) }),
            *final(self) == *final(r),
    {
        self.comm = comm;
        self
    }
    pub fn range(&mut self, range: (u64, u64)) -> (r: &mut Self)
        ensures
            *r == (VmaTypeBuilder { range: Some(range), ..*old(self) }),
            *final(self) == *final(r),
    {
        self.range = Some(range);
        self
    }

    pub fn build(self) -> (r: VmaType)
        ensures
            r == (VmaType { comm: self.comm, range: self.range }),
    {
        VmaType { comm: self.comm, range: self.range }
    }
}

/// A pointer to a value of another type, named by its id.
#[derive(Debug)]
pub struct PtrType {
    pub comm: CommonInfo,
    pub elem: TypeId,
    pub dir: Dir,
}

impl PtrType {
    pub fn id(&self) -> (r: crate::ty::TypeId)
        ensures
            r == self.comm.id,
    {
        self.comm.id
    }
    pub fn name(&self) -> (r: &str)
        ensures
            r@ == self.comm.name@,
    {
        self.comm.name.as_str()
    }
    pub fn size(&self) -> (r: u64)
        ensures
            r == self.comm.size,
    {
        self.comm.size
    }
    pub fn align(&self) -> (r: u64)
        ensures
            r == self.comm.align,
    {
        self.comm.align
    }
    pub fn optional(&self) -> (r: bool)
        ensures
            r == self.comm.optional,
    {
        self.comm.optional
    }
    pub fn varlen(&self) -> (r: bool)
        ensures
            r == self.comm.varlen,
    {
        self.comm.varlen
    }
    /// Name with any template arguments (from the first `[`) cut off.
    pub fn template_name(&self) -> (r: String)
        ensures
            r@ == crate::strings::prefix_before_bracket(self.comm.name@),
    {
        self.comm.template_name()
    }

    pub fn comm(&self) -> (r: &crate::ty::common::CommonInfo)
        ensures
            *r == self.comm,
    {
        &self.comm
    }
    pub fn bitfield_off(&self) -> (r: u64)
        ensures
            r == 0,
    {
        0
    }
    pub fn bitfield_len(&self) -> (r: u64)
        ensures
            r == 0,
    {
        0
    }
    pub fn bitfield_unit(&self) -> (r: u64)
        ensures
            r == self.comm.size,
    {
        self.comm.size
    }
    pub fn bitfield_unit_off(&self) -> (r: u64)
        ensures
            r == 0,
    {
        0
    }
    pub fn is_bitfield(&self) -> (r: bool)
        ensures
            r == false,
    {
        false
    }
    pub fn bin_fmt(&self) -> (r: crate::ty::BinaryFormat)
        ensures
            r == crate::ty::BinaryFormat::Native,
    {
        crate::ty::BinaryFormat::Native
    }
    pub fn format(&self) -> (r: crate::ty::BinaryFormat)
        ensures
            r == crate::ty::BinaryFormat::Native,
    {
        crate::ty::BinaryFormat::Native
    }
    /// Id of the pointee's type.
    pub fn elem(&self) -> (r: TypeId)
        ensures
            r == self.elem,
    {
        self.elem
    }
    pub fn dir(&self) -> (r: Dir)
        ensures
            r == self.dir,
    {
        self.dir
    }

    /// Default value: the null special pointer.
    pub fn default_value(&self, dir: Dir) -> (r: Value)
        ensures
            r.comm == (ValueCommon { ty_id: self.comm.id, dir }),
            r.inner matches ValueKindInner::PtrValue(p) && p.comm == r.comm && p.addr == 0
                && p.pointee is None,
    {
        Value::from_ptr(PtrValue::new_special(self.comm.id, dir, 0))
    }

    /// Whether a pointer value is special (has no pointee and a special address).
    pub fn is_default(&self, val: &Value) -> (r: bool)
        requires
            val.inner is PtrValue,
        ensures
            r == (val.inner->PtrValue_0.pointee is None && addr_is_special(val.inner->PtrValue_0.addr)),
    {
        match &val.inner {
            ValueKindInner::PtrValue(p) => p.is_special(),
            _ => false,
        }
    }
}

/// Builder of `PtrType`; the element type must be set before `build`.
#[derive(Debug)]
pub struct PtrTypeBuilder {
    pub comm: CommonInfo,
    pub elem: Option<TypeId>,
    pub dir: Dir,
}

impl PtrTypeBuilder {
    pub fn new(comm: CommonInfo) -> (r: Self)
        ensures
            r.comm == comm,
            r.elem is None,
            r.dir == Dir::In,
    {
        Self { comm, elem: None, dir: Dir::In }
    }

    pub fn comm(&mut self, comm: CommonInfo) -> (r: &mut Self)
        ensures
            *r == (PtrTypeBuilder { comm: comm, ..*old(self) }),
            *final(self) == *final(r),
    {
        self.comm = comm;
        self
    }
    pub fn elem(&mut self, elem: TypeId) -> (r: &mut Self)
        ensures
            *r == (PtrTypeBuilder { elem: Some(elem), ..*old(self) }),
            *final(self) == *final(r),
    {
        self.elem = Some(elem);
        self
    }
    pub fn dir(&mut self, dir: Dir) -> (r: &mut Self)
        ensures
            *r == (PtrTypeBuilder { dir: dir, ..*old(self) }),
            *final(self) == *final(r),
    {
        self.dir = dir;
        self
    }

    pub fn build(self) -> (r: PtrType)
        requires
            self.elem is Some,
        ensures
            r == (PtrType { comm: self.comm, elem: self.elem->0, dir: self.dir }),
    {
        PtrType { comm: self.comm, elem: self.elem.unwrap(), dir: self.dir }
    }
}

} // verus!

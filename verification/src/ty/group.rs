//! Group types: arrays, structs and unions.
use crate::ty::common::CommonInfo;
use crate::ty::{Dir, Type};
use vstd::prelude::*;

verus! {

/// An array of values of one element type.
#[derive(Debug)]
pub struct ArrayType {
    pub comm: CommonInfo,
    pub elem: Box<Type>,
    pub range: Option<(u64, u64)>,
}

impl ArrayType {
    pub fn id(&self) -> (r: crate::ty::TypeId)
        ensures
            r == self.comm.id,
    {
        self.comm.id
    }
    pub fn name(&self) -> (r: &str)
        ensures
            r@ == self.comm.name@,
    {
        self.comm.name.as_str()
    }
    pub fn size(&self) -> (r: u64)
        ensures
            r == self.comm.size,
    {
        self.comm.size
    }
    pub fn align(&self) -> (r: u64)
        ensures
            r == self.comm.align,
    {
        self.comm.align
    }
    pub fn optional(&self) -> (r: bool)
        ensures
            r == self.comm.optional,
    {
        self.comm.optional
    }
    pub fn varlen(&self) -> (r: bool)
        ensures
            r == self.comm.varlen,
    {
        self.comm.varlen
    }
    /// Name with any template arguments (from the first `[`) cut off.
    pub fn template_name(&self) -> (r: String)
        ensures
            r@ == crate::strings::prefix_before_bracket(self.comm.name@),
    {
        self.comm.template_name()
    }

    pub fn comm(&self) -> (r: &crate::ty::common::CommonInfo)
        ensures
            *r == self.comm,
    {
        &self.comm
    }
    pub fn bitfield_off(&self) -> (r: u64)
        ensures
            r == 0,
    {
        0
    }
    pub fn bitfield_len(&self) -> (r: u64)
        ensures
            r == 0,
    {
        0
    }
    pub fn bitfield_unit(&self) -> (r: u64)
        ensures
            r == self.comm.size,
    {
        self.comm.size
    }
    pub fn bitfield_unit_off(&self) -> (r: u64)
        ensures
            r == 0,
    {
        0
    }
    pub fn is_bitfield(&self) -> (r: bool)
        ensures
            r == false,
    {
        false
    }
    pub fn bin_fmt(&self) -> (r: crate::ty::BinaryFormat)
        ensures
            r == crate::ty::BinaryFormat::Native,
    {
        crate::ty::BinaryFormat::Native
    }
    pub fn format(&self) -> (r: crate::ty::BinaryFormat)
        ensures
            r == crate::ty::BinaryFormat::Native,
    {
        crate::ty::BinaryFormat::Native
    }

    pub fn elem(&self) -> (r: &Type)
        ensures
            *r == *self.elem,
    {
        &self.elem
    }

    /// Inclusive range `(start, end)` of the length, if restricted.
    pub fn range(&self) -> (r: Option<(u64, u64)>)
        ensures
            r == self.range,
    {
        self.range
    }

    /// Least length the range allows (0 when unrestricted).
    pub open spec fn spec_min_len(&self) -> u64 {
        match self.range {
            Some((start, _)) => start,
            None => 0,
        }
    }

    pub open spec fn spec_fixed_len(&self) -> bool {
        self.range matches Some((start, end)) && start == end
    }

    /// The length is fixed: the range is a single number.
    pub fn fixed_len(&self) -> (r: bool)
        ensures
            r == self.spec_fixed_len(),
    {
        match self.range {
            Some((start, end)) => start == end,
            None => false,
        }
    }
}

/// Builder of `ArrayType`; the element type must be set before `build`.
#[derive(Debug)]
pub struct ArrayTypeBuilder {
    pub comm: CommonInfo,
    pub elem: Option<Box<Type>>,
    pub range: Option<(u64, u64)>,
}

impl ArrayTypeBuilder {
    pub fn new(comm: CommonInfo) -> (r: Self)
        ensures
            r.comm == comm,
            r.elem is None,
            r.range is None,
    {
        Self { comm, elem: None, range: None }
    }

    pub fn elem(&mut self, elem: Type) -> (r: &mut Self)
        ensures
            *r == (ArrayTypeBuilder { elem: Some(Box::new(elem)), ..*old(self) }),
            *final(self) == *final(r),
    {
        self.elem = Some(Box::new(elem));
        self
    }

    pub fn range(&mut self, range: (u64, u64)) -> (r: &mut Self)
        ensures
            *r == (ArrayTypeBuilder { range: Some(range), ..*old(self) }),
            *final(self) == *final(r),
    {
        self.range = Some(range);
        self
    }

    pub fn build(self) -> (r: ArrayType)
        requires
            self.elem is Some,
        ensures
            r == (ArrayType { comm: self.comm, elem: self.elem->0, range: self.range }),
    {
        ArrayType { comm: self.comm, elem: self.elem.unwrap(), range: self.range }
    }
}

/// A field of a struct or union, or a parameter of a syscall.
#[derive(Debug)]
pub struct Field {
    pub name: String,
    pub ty: Box<Type>,
    /// Direction of the field, when it differs from the enclosing one.
    pub dir: Option<Dir>,
}

impl Field {
    pub fn new(name: String, ty: Type) -> (r: Self)
        ensures
            r == (Field { name, ty: Box::new(ty), dir: None }),
    {
        Field { name, ty: Box::new(ty), dir: None }
    }

    pub fn set_dir(&mut self, dir: Dir)
        ensures
            *final(self) == (Field { dir: Some(dir), ..*old(self) }),
    {
        self.dir = Some(dir);
    }

    pub fn name(&self) -> (r: &str)
        ensures
            r@ == self.name@,
    {
        self.name.as_str()
    }

    pub fn ty(&self) -> (r: &Type)
        ensures
            *r == *self.ty,
    {
        &self.ty
    }

    pub fn dir(&self) -> (r: Option<Dir>)
        ensures
            r == self.dir,
    {
        self.dir
    }
}

/// A struct: a sequence of fields.
#[derive(Debug)]
pub struct StructType {
    pub comm: CommonInfo,
    pub fields: Vec<Field>,
    pub align_attr: u64,
}

impl StructType {
    pub fn id(&self) -> (r: crate::ty::TypeId)
        ensures
            r == self.comm.id,
    {
        self.comm.id
    }
    pub fn name(&self) -> (r: &str)
        ensures
            r@ == self.comm.name@,
    {
        self.comm.name.as_str()
    }
    pub fn size(&self) -> (r: u64)
        ensures
            r == self.comm.size,
    {
        self.comm.size
    }
    pub fn align(&self) -> (r: u64)
        ensures
            r == self.comm.align,
    {
        self.comm.align
    }
    pub fn optional(&self) -> (r: bool)
        ensures
            r == self.comm.optional,
    {
        self.comm.optional
    }
    pub fn varlen(&self) -> (r: bool)
        ensures
            r == self.comm.varlen,
    {
        self.comm.varlen
    }
    /// Name with any template arguments (from the first `[`) cut off.
    pub fn template_name(&self) -> (r: String)
        ensures
            r@ == crate::strings::prefix_before_bracket(self.comm.name@),
    {
        self.comm.template_name()
    }

    pub fn comm(&self) -> (r: &crate::ty::common::CommonInfo)
        ensures
            *r == self.comm,
    {
        &self.comm
    }
    pub fn bitfield_off(&self) -> (r: u64)
        ensures
            r == 0,
    {
        0
    }
    pub fn bitfield_len(&self) -> (r: u64)
        ensures
            r == 0,
    {
        0
    }
    pub fn bitfield_unit(&self) -> (r: u64)
        ensures
            r == self.comm.size,
    {
        self.comm.size
    }
    pub fn bitfield_unit_off(&self) -> (r: u64)
        ensures
            r == 0,
    {
        0
    }
    pub fn is_bitfield(&self) -> (r: bool)
        ensures
            r == false,
    {
        false
    }
    pub fn bin_fmt(&self) -> (r: crate::ty::BinaryFormat)
        ensures
            r == crate::ty::BinaryFormat::Native,
    {
        crate::ty::BinaryFormat::Native
    }
    pub fn format(&self) -> (r: crate::ty::BinaryFormat)
        ensures
            r == crate::ty::BinaryFormat::Native,
    {
        crate::ty::BinaryFormat::Native
    }

    pub fn fields(&self) -> (r: &[Field])
        ensures
            r@ == self.fields@,
    {
        self.fields.as_slice()
    }

    pub fn align_attr(&self) -> (r: u64)
        ensures
            r == self.align_attr,
    {
        self.align_attr
    }
}

#[derive(Debug)]
pub struct StructTypeBuilder {
    pub comm: CommonInfo,
    pub fields: Vec<Field>,
    pub align_attr: u64,
}

impl StructTypeBuilder {
    pub fn new(comm: CommonInfo) -> (r: Self)
        ensures
            r.comm == comm,
            r.fields@.len() == 0,
            r.align_attr == 0,
    {
        Self { comm, fields: Vec::new(), align_attr: 0 }
    }

    pub fn comm(&mut self, comm: CommonInfo) -> (r: &mut Self)
        ensures
            *r == (StructTypeBuilder { comm: comm, ..*old(self) }),
            *final(self) == *final(r),
    {
        self.comm = comm;
        self
    }
    pub fn fields(&mut self, fields: Vec<Field>) -> (r: &mut Self)
        ensures
            *r == (StructTypeBuilder { fields: fields, ..*old(self) }),
            *final(self) == *final(r),
    {
        self.fields = fields;
        self
    }
    pub fn align_attr(&mut self, align_attr: u64) -> (r: &mut Self)
        ensures
            *r == (StructTypeBuilder { align_attr: align_attr, ..*old(self) }),
            *final(self) == *final(r),
    {
        self.align_attr = align_attr;
        self
    }

    pub fn build(self) -> (r: StructType)
        ensures
            r == (StructType { comm: self.comm, fields: self.fields, align_attr: self.align_attr }),
    {
        StructType { comm: self.comm, fields: self.fields, align_attr: self.align_attr }
    }
}

/// A union: one of several fields.
#[derive(Debug)]
pub struct UnionType {
    pub comm: CommonInfo,
    pub fields: Vec<Field>,
}

impl UnionType {
    pub fn id(&self) -> (r: crate::ty::TypeId)
        ensures
            r == self.comm.id,
    {
        self.comm.id
    }
    pub fn name(&self) -> (r: &str)
        ensures
            r@ == self.comm.name@,
    {
        self.comm.name.as_str()
    }
    pub fn size(&self) -> (r: u64)
        ensures
            r == self.comm.size,
    {
        self.comm.size
    }
    pub fn align(&self) -> (r: u64)
        ensures
            r == self.comm.align,
    {
        self.comm.align
    }
    pub fn optional(&self) -> (r: bool)
        ensures
            r == self.comm.optional,
    {
        self.comm.optional
    }
    pub fn varlen(&self) -> (r: bool)
        ensures
            r == self.comm.varlen,
    {
        self.comm.varlen
    }
    /// Name with any template arguments (from the first `[`) cut off.
    pub fn template_name(&self) -> (r: String)
        ensures
            r@ == crate::strings::prefix_before_bracket(self.comm.name@),
    {
        self.comm.template_name()
    }

    pub fn comm(&self) -> (r: &crate::ty::common::CommonInfo)
        ensures
            *r == self.comm,
    {
        &self.comm
    }
    pub fn bitfield_off(&self) -> (r: u64)
        ensures
            r == 0,
    {
        0
    }
    pub fn bitfield_len(&self) -> (r: u64)
        ensures
            r == 0,
    {
        0
    }
    pub fn bitfield_unit(&self) -> (r: u64)
        ensures
            r == self.comm.size,
    {
        self.comm.size
    }
    pub fn bitfield_unit_off(&self) -> (r: u64)
        ensures
            r == 0,
    {
        0
    }
    pub fn is_bitfield(&self) -> (r: bool)
        ensures
            r == false,
    {
        false
    }
    pub fn bin_fmt(&self) -> (r: crate::ty::BinaryFormat)
        ensures
            r == crate::ty::BinaryFormat::Native,
    {
        crate::ty::BinaryFormat::Native
    }
    pub fn format(&self) -> (r: crate::ty::BinaryFormat)
        ensures
            r == crate::ty::BinaryFormat::Native,
    {
        crate::ty::BinaryFormat::Native
    }

    pub fn fields(&self) -> (r: &[Field])
        ensures
            r@ == self.fields@,
    {
        self.fields.as_slice()
    }
}

#[derive(Debug)]
pub struct UnionTypeBuilder {
    pub comm: CommonInfo,
    pub fields: Vec<Field>,
}

impl UnionTypeBuilder {
    pub fn new(comm: CommonInfo) -> (r: Self)
        ensures
            r.comm == comm,
            r.fields@.len() == 0,
    {
        Self { comm, fields: Vec::new() }
    }

    pub fn comm(&mut self, comm: CommonInfo) -> (r: &mut Self)
        ensures
            *r == (UnionTypeBuilder { comm: comm, ..*old(self) }),
            *final(self) == *final(r),
    {
        self.comm = comm;
        self
    }
    pub fn fields(&mut self, fields: Vec<Field>) -> (r: &mut Self)
        ensures
            *r == (UnionTypeBuilder { fields: fields, ..*old(self) }),
            *final(self) == *final(r),
    {
        self.fields = fields;
        self
    }

    pub fn build(self) -> (r: UnionType)
        ensures
            r == (UnionType { comm: self.comm, fields: self.fields }),
    {
        UnionType { comm: self.comm, fields: self.fields }
    }
}

} // verus!

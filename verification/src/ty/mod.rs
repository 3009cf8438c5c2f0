//! Syscall argument types.
pub mod buffer;
pub mod common;
pub mod defaults;
pub mod group;
pub mod integer;
pub mod ptr;
pub mod res;
pub mod text;

use crate::ty::buffer::{
    data_is_default, is_default_data_of, BufferBlobType, BufferFilenameType, BufferStringType,
};
use crate::ty::common::CommonInfo;
use crate::ty::group::{ArrayType, StructType, UnionType};
use crate::ty::integer::{ConstType, CsumType, FlagsType, IntType, LenType, ProcType};
use crate::ty::ptr::{PtrType, VmaType};
use crate::ty::res::ResType;
use crate::value::{
    addr_is_special, GroupValue, ResValue, ResValueKind, UnionValue, Value, ValueCommon,
    ValueKindInner, IntegerValue, VmaValue,
};
use vstd::prelude::*;

verus! {

pub type TypeId = usize;

/// Direction of a value.
#[derive(Debug, Clone, Copy, PartialEq, Eq, Structural)]
pub enum Dir {
    In,
    Out,
    InOut,
}

/// Binary format of integers.
#[derive(Debug, Clone, Copy, PartialEq, Eq, Structural)]
pub enum BinaryFormat {
    Native,
    BigEndian,
    StrDec,
    StrHex,
    StrOct,
}

/// Kind of a type.
#[derive(Debug, Clone, Copy, PartialEq, Eq, Structural)]
pub enum TypeKind {
    Res,
    Const,
    Int,
    Flags,
    Len,
    Proc,
    Csum,
    Vma,
    BufferBlob,
    BufferString,
    BufferFilename,
    Array,
    Ptr,
    Struct,
    Union,
}

/// A type of a syscall argument.
#[derive(Debug)]
pub enum Type {
    Res(ResType),
    Const(ConstType),
    Int(IntType),
    Flags(FlagsType),
    Len(LenType),
    Proc(ProcType),
    Csum(CsumType),
    Vma(VmaType),
    BufferBlob(BufferBlobType),
    BufferString(BufferStringType),
    BufferFilename(BufferFilenameType),
    Array(ArrayType),
    Ptr(PtrType),
    Struct(StructType),
    Union(UnionType),
}

impl Type {
    pub open spec fn spec_comm(&self) -> CommonInfo {
        match self {
            Type::Res(t) => t.comm,
            Type::Const(t) => t.comm,
            Type::Int(t) => t.comm,
            Type::Flags(t) => t.comm,
            Type::Len(t) => t.comm,
            Type::Proc(t) => t.comm,
            Type::Csum(t) => t.comm,
            Type::Vma(t) => t.comm,
            Type::BufferBlob(t) => t.comm,
            Type::BufferString(t) => t.comm,
            Type::BufferFilename(t) => t.comm,
            Type::Array(t) => t.comm,
            Type::Ptr(t) => t.comm,
            Type::Struct(t) => t.comm,
            Type::Union(t) => t.comm,
        }
    }

    pub open spec fn spec_kind(&self) -> TypeKind {
        match self {
            Type::Res(_) => TypeKind::Res,
            Type::Const(_) => TypeKind::Const,
            Type::Int(_) => TypeKind::Int,
            Type::Flags(_) => TypeKind::Flags,
            Type::Len(_) => TypeKind::Len,
            Type::Proc(_) => TypeKind::Proc,
            Type::Csum(_) => TypeKind::Csum,
            Type::Vma(_) => TypeKind::Vma,
            Type::BufferBlob(_) => TypeKind::BufferBlob,
            Type::BufferString(_) => TypeKind::BufferString,
            Type::BufferFilename(_) => TypeKind::BufferFilename,
            Type::Array(_) => TypeKind::Array,
            Type::Ptr(_) => TypeKind::Ptr,
            Type::Struct(_) => TypeKind::Struct,
            Type::Union(_) => TypeKind::Union,
        }
    }

    pub fn comm(&self) -> (r: &CommonInfo)
        ensures
            *r == self.spec_comm(),
    {
        match self {
            Type::Res(t) => &t.comm,
            Type::Const(t) => &t.comm,
            Type::Int(t) => &t.comm,
            Type::Flags(t) => &t.comm,
            Type::Len(t) => &t.comm,
            Type::Proc(t) => &t.comm,
            Type::Csum(t) => &t.comm,
            Type::Vma(t) => &t.comm,
            Type::BufferBlob(t) => &t.comm,
            Type::BufferString(t) => &t.comm,
            Type::BufferFilename(t) => &t.comm,
            Type::Array(t) => &t.comm,
            Type::Ptr(t) => &t.comm,
            Type::Struct(t) => &t.comm,
            Type::Union(t) => &t.comm,
        }
    }

    pub fn kind(&self) -> (r: TypeKind)
        ensures
            r == self.spec_kind(),
    {
        match self {
            Type::Res(_) => TypeKind::Res,
            Type::Const(_) => TypeKind::Const,
            Type::Int(_) => TypeKind::Int,
            Type::Flags(_) => TypeKind::Flags,
            Type::Len(_) => TypeKind::Len,
            Type::Proc(_) => TypeKind::Proc,
            Type::Csum(_) => TypeKind::Csum,
            Type::Vma(_) => TypeKind::Vma,
            Type::BufferBlob(_) => TypeKind::BufferBlob,
            Type::BufferString(_) => TypeKind::BufferString,
            Type::BufferFilename(_) => TypeKind::BufferFilename,
            Type::Array(_) => TypeKind::Array,
            Type::Ptr(_) => TypeKind::Ptr,
            Type::Struct(_) => TypeKind::Struct,
            Type::Union(_) => TypeKind::Union,
        }
    }

    pub fn id(&self) -> (r: TypeId)
        ensures
            r == self.spec_comm().id,
    {
        self.comm().id
    }

    pub fn name(&self) -> (r: &str)
        ensures
            r@ == self.spec_comm().name@,
    {
        self.comm().name.as_str()
    }

    pub fn size(&self) -> (r: u64)
        ensures
            r == self.spec_comm().size,
    {
        self.comm().size
    }

    pub fn align(&self) -> (r: u64)
        ensures
            r == self.spec_comm().align,
    {
        self.comm().align
    }

    pub fn optional(&self) -> (r: bool)
        ensures
            r == self.spec_comm().optional,
    {
        self.comm().optional
    }

    pub fn varlen(&self) -> (r: bool)
        ensures
            r == self.spec_comm().varlen,
    {
        self.comm().varlen
    }

    /// Name with any template arguments (from the first `[`) cut off.
    pub fn template_name(&self) -> (r: String)
        ensures
            r@ == crate::strings::prefix_before_bracket(self.spec_comm().name@),
    {
        self.comm().template_name()
    }

    pub fn as_res(&self) -> (r: Option<&ResType>)
        ensures
            r is Some <==> self is Res,
            r is Some ==> *r->0 == self->Res_0,
    {
        match self {
            Type::Res(t) => Some(t),
            _ => None,
        }
    }

    pub fn checked_as_res(&self) -> (r: &ResType)
        requires
            self is Res,
        ensures
            *r == self->Res_0,
    {
        match self {
            Type::Res(t) => t,
            _ => vstd::pervasive::unreached(),
        }
    }

    pub fn as_const(&self) -> (r: Option<&ConstType>)
        ensures
            r is Some <==> self is Const,
            r is Some ==> *r->0 == self->Const_0,
    {
        match self {
            Type::Const(t) => Some(t),
            _ => None,
        }
    }

    pub fn checked_as_const(&self) -> (r: &ConstType)
        requires
            self is Const,
        ensures
            *r == self->Const_0,
    {
        match self {
            Type::Const(t) => t,
            _ => vstd::pervasive::unreached(),
        }
    }

    pub fn as_int(&self) -> (r: Option<&IntType>)
        ensures
            r is Some <==> self is Int,
            r is Some ==> *r->0 == self->Int_0,
    {
        match self {
            Type::Int(t) => Some(t),
            _ => None,
        }
    }

    pub fn checked_as_int(&self) -> (r: &IntType)
        requires
            self is Int,
        ensures
            *r == self->Int_0,
    {
        match self {
            Type::Int(t) => t,
            _ => vstd::pervasive::unreached(),
        }
    }

    pub fn as_flags(&self) -> (r: Option<&FlagsType>)
        ensures
            r is Some <==> self is Flags,
            r is Some ==> *r->0 == self->Flags_0,
    {
        match self {
            Type::Flags(t) => Some(t),
            _ => None,
        }
    }

    pub fn checked_as_flags(&self) -> (r: &FlagsType)
        requires
            self is Flags,
        ensures
            *r == self->Flags_0,
    {
        match self {
            Type::Flags(t) => t,
            _ => vstd::pervasive::unreached(),
        }
    }

    pub fn as_len(&self) -> (r: Option<&LenType>)
        ensures
            r is Some <==> self is Len,
            r is Some ==> *r->0 == self->Len_0,
    {
        match self {
            Type::Len(t) => Some(t),
            _ => None,
        }
    }

    pub fn checked_as_len(&self) -> (r: &LenType)
        requires
            self is Len,
        ensures
            *r == self->Len_0,
    {
        match self {
            Type::Len(t) => t,
            _ => vstd::pervasive::unreached(),
        }
    }

    pub fn as_proc(&self) -> (r: Option<&ProcType>)
        ensures
            r is Some <==> self is Proc,
            r is Some ==> *r->0 == self->Proc_0,
    {
        match self {
            Type::Proc(t) => Some(t),
            _ => None,
        }
    }

    pub fn checked_as_proc(&self) -> (r: &ProcType)
        requires
            self is Proc,
        ensures
            *r == self->Proc_0,
    {
        match self {
            Type::Proc(t) => t,
            _ => vstd::pervasive::unreached(),
        }
    }

    pub fn as_csum(&self) -> (r: Option<&CsumType>)
        ensures
            r is Some <==> self is Csum,
            r is Some ==> *r->0 == self->Csum_0,
    {
        match self {
            Type::Csum(t) => Some(t),
            _ => None,
        }
    }

    pub fn checked_as_csum(&self) -> (r: &CsumType)
        requires
            self is Csum,
        ensures
            *r == self->Csum_0,
    {
        match self {
            Type::Csum(t) => t,
            _ => vstd::pervasive::unreached(),
        }
    }

    pub fn as_vma(&self) -> (r: Option<&VmaType>)
        ensures
            r is Some <==> self is Vma,
            r is Some ==> *r->0 == self->Vma_0,
    {
        match self {
            Type::Vma(t) => Some(t),
            _ => None,
        }
    }

    pub fn checked_as_vma(&self) -> (r: &VmaType)
        requires
            self is Vma,
        ensures
            *r == self->Vma_0,
    {
        match self {
            Type::Vma(t) => t,
            _ => vstd::pervasive::unreached(),
        }
    }

    pub fn as_buffer_blob(&self) -> (r: Option<&BufferBlobType>)
        ensures
            r is Some <==> self is BufferBlob,
            r is Some ==> *r->0 == self->BufferBlob_0,
    {
        match self {
            Type::BufferBlob(t) => Some(t),
            _ => None,
        }
    }

    pub fn checked_as_buffer_blob(&self) -> (r: &BufferBlobType)
        requires
            self is BufferBlob,
        ensures
            *r == self->BufferBlob_0,
    {
        match self {
            Type::BufferBlob(t) => t,
            _ => vstd::pervasive::unreached(),
        }
    }

    pub fn as_buffer_string(&self) -> (r: Option<&BufferStringType>)
        ensures
            r is Some <==> self is BufferString,
            r is Some ==> *r->0 == self->BufferString_0,
    {
        match self {
            Type::BufferString(t) => Some(t),
            _ => None,
        }
    }

    pub fn checked_as_buffer_string(&self) -> (r: &BufferStringType)
        requires
            self is BufferString,
        ensures
            *r == self->BufferString_0,
    {
        match self {
            Type::BufferString(t) => t,
            _ => vstd::pervasive::unreached(),
        }
    }

    pub fn as_buffer_filename(&self) -> (r: Option<&BufferFilenameType>)
        ensures
            r is Some <==> self is BufferFilename,
            r is Some ==> *r->0 == self->BufferFilename_0,
    {
        match self {
            Type::BufferFilename(t) => Some(t),
            _ => None,
        }
    }

    pub fn checked_as_buffer_filename(&self) -> (r: &BufferFilenameType)
        requires
            self is BufferFilename,
        ensures
            *r == self->BufferFilename_0,
    {
        match self {
            Type::BufferFilename(t) => t,
            _ => vstd::pervasive::unreached(),
        }
    }

    pub fn as_array(&self) -> (r: Option<&ArrayType>)
        ensures
            r is Some <==> self is Array,
            r is Some ==> *r->0 == self->Array_0,
    {
        match self {
            Type::Array(t) => Some(t),
            _ => None,
        }
    }

    pub fn checked_as_array(&self) -> (r: &ArrayType)
        requires
            self is Array,
        ensures
            *r == self->Array_0,
    {
        match self {
            Type::Array(t) => t,
            _ => vstd::pervasive::unreached(),
        }
    }

    pub fn as_ptr(&self) -> (r: Option<&PtrType>)
        ensures
            r is Some <==> self is Ptr,
            r is Some ==> *r->0 == self->Ptr_0,
    {
        match self {
            Type::Ptr(t) => Some(t),
            _ => None,
        }
    }

    pub fn checked_as_ptr(&self) -> (r: &PtrType)
        requires
            self is Ptr,
        ensures
            *r == self->Ptr_0,
    {
        match self {
            Type::Ptr(t) => t,
            _ => vstd::pervasive::unreached(),
        }
    }

    pub fn as_struct(&self) -> (r: Option<&StructType>)
        ensures
            r is Some <==> self is Struct,
            r is Some ==> *r->0 == self->Struct_0,
    {
        match self {
            Type::Struct(t) => Some(t),
            _ => None,
        }
    }

    pub fn checked_as_struct(&self) -> (r: &StructType)
        requires
            self is Struct,
        ensures
            *r == self->Struct_0,
    {
        match self {
            Type::Struct(t) => t,
            _ => vstd::pervasive::unreached(),
        }
    }

    pub fn as_union(&self) -> (r: Option<&UnionType>)
        ensures
            r is Some <==> self is Union,
            r is Some ==> *r->0 == self->Union_0,
    {
        match self {
            Type::Union(t) => Some(t),
            _ => None,
        }
    }

    pub fn checked_as_union(&self) -> (r: &UnionType)
        requires
            self is Union,
        ensures
            *r == self->Union_0,
    {
        match self {
            Type::Union(t) => t,
            _ => vstd::pervasive::unreached(),
        }
    }

} // impl Type

} // verus!

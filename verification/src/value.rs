//! Values of syscall arguments.
use crate::ty::{Dir, TypeId};
use crate::strings::string_push;
use vstd::prelude::*;

verus! {

/// Number of special (non-heap) pointer values.
pub const MAX_SPECIAL_POINTERS: u64 = 16;

/// Base address added to pointer values when they are displayed.
pub const ENCODING_ADDR_BASE: u64 = 0x7f0000000000;

pub type PtrAddress = u64;

pub type ResValueId = usize;

/// Type and direction shared by every value.
#[derive(Debug, Clone, Copy, PartialEq, Eq, Structural)]
pub struct ValueCommon {
    pub ty_id: TypeId,
    pub dir: Dir,
}

impl ValueCommon {
    pub fn new(ty_id: TypeId, dir: Dir) -> (r: Self)
        ensures
            r.ty_id == ty_id,
            r.dir == dir,
    {
        Self { ty_id, dir }
    }

    pub fn ty_id(&self) -> (r: TypeId)
        ensures
            r == self.ty_id,
    {
        self.ty_id
    }
}

/// The address a special pointer of index `index` is encoded as: `-index`
/// in two's complement.
pub open spec fn special_addr(index: u64) -> u64 {
    if index == 0 {
        0
    } else {
        (u64::MAX - index + 1) as u64
    }
}

/// `-(addr as i64) < MAX_SPECIAL_POINTERS`, the negation wrapping: every
/// address up to `2^63` and the last 15 addresses.
pub open spec fn addr_is_special(addr: u64) -> bool {
    addr <= 0x8000_0000_0000_0000 || addr > u64::MAX - (MAX_SPECIAL_POINTERS - 1)
}

fn special_addr_of(index: u64) -> (r: u64)
    requires
        index < MAX_SPECIAL_POINTERS,
    ensures
        r == special_addr(index),
        addr_is_special(r),
{
    if index == 0 {
        0
    } else {
        u64::MAX - index + 1
    }
}

fn is_special_addr(addr: u64) -> (r: bool)
    ensures
        r == addr_is_special(addr),
{
    addr <= 0x8000_0000_0000_0000 || addr > u64::MAX - (MAX_SPECIAL_POINTERS - 1)
}

#[derive(Debug, Clone, Copy, PartialEq, Eq, Structural)]
pub struct IntegerValue {
    pub comm: ValueCommon,
    pub val: u64,
}

impl IntegerValue {
    pub fn new(ty: TypeId, dir: Dir, val: u64) -> (r: Self)
        ensures
            r.comm.ty_id == ty,
            r.comm.dir == dir,
            r.val == val,
    {
        Self { comm: ValueCommon::new(ty, dir), val }
    }

    pub fn ty_id(&self) -> (r: TypeId)
        ensures
            r == self.comm.ty_id,
    {
        self.comm.ty_id
    }

    pub fn dir(&self) -> (r: Dir)
        ensures
            r == self.comm.dir,
    {
        self.comm.dir
    }
}

#[derive(Debug)]
pub struct PtrValue {
    pub comm: ValueCommon,
    /// Address; may be set while the pointee is absent.
    pub addr: PtrAddress,
    pub pointee: Option<Box<Value>>,
}

impl PtrValue {
    pub fn new(ty: TypeId, dir: Dir, addr: PtrAddress, data: Value) -> (r: Self)
        ensures
            r.comm == (ValueCommon { ty_id: ty, dir }),
            r.addr == addr,
            r.pointee == Some(Box::new(data)),
    {
        Self { comm: ValueCommon::new(ty, dir), addr, pointee: Some(Box::new(data)) }
    }

    /// The `index`-th special pointer: address `-index`, no pointee.
    pub fn new_special(ty: TypeId, dir: Dir, index: u64) -> (r: Self)
        requires
            index < MAX_SPECIAL_POINTERS,
        ensures
            r.comm == (ValueCommon { ty_id: ty, dir }),
            r.addr == special_addr(index),
            (r.pointee is None),
    {
        Self { comm: ValueCommon::new(ty, dir), addr: special_addr_of(index), pointee: None }
    }

    /// No pointee, and the address read as a signed integer is above
    /// `-MAX_SPECIAL_POINTERS`.
    pub fn is_special(&self) -> (r: bool)
        ensures
            r == (self.pointee is None && addr_is_special(self.addr)),
    {
        self.pointee.is_none() && is_special_addr(self.addr)
    }

    pub fn ty_id(&self) -> (r: TypeId)
        ensures
            r == self.comm.ty_id,
    {
        self.comm.ty_id
    }

    pub fn dir(&self) -> (r: Dir)
        ensures
            r == self.comm.dir,
    {
        self.comm.dir
    }
}

#[derive(Debug, Clone, Copy, PartialEq, Eq, Structural)]
pub struct VmaValue {
    pub comm: ValueCommon,
    pub addr: PtrAddress,
    pub vma_size: u64,
}

impl VmaValue {
    /// A vma value; the address must be 1024-aligned.
    pub fn new(ty: TypeId, dir: Dir, addr: u64, vma_size: u64) -> (r: Self)
        requires
            addr % 1024 == 0,
        ensures
            r.comm == (ValueCommon { ty_id: ty, dir }),
            r.addr == addr,
            r.vma_size == vma_size,
    {
        Self { comm: ValueCommon::new(ty, dir), addr, vma_size }
    }

    /// The `index`-th special vma: address `-index`, size 0.
    pub fn new_special(ty: TypeId, dir: Dir, index: u64) -> (r: Self)
        requires
            index < MAX_SPECIAL_POINTERS,
        ensures
            r.comm == (ValueCommon { ty_id: ty, dir }),
            r.addr == special_addr(index),
            r.vma_size == 0,
    {
        Self { comm: ValueCommon::new(ty, dir), addr: special_addr_of(index), vma_size: 0 }
    }

    /// Size zero, and the address read as a signed integer is above
    /// `-MAX_SPECIAL_POINTERS`.
    pub fn is_special(&self) -> (r: bool)
        ensures
            r == (self.vma_size == 0 && addr_is_special(self.addr)),
    {
        self.vma_size == 0 && is_special_addr(self.addr)
    }
}

#[derive(Debug)]
pub struct DataValue {
    pub comm: ValueCommon,
    pub data: Vec<u8>,
    /// Size of output data.
    pub size: u64,
}

impl DataValue {
    pub fn new(ty: TypeId, dir: Dir, data: Vec<u8>) -> (r: Self)
        ensures
            r.comm == (ValueCommon { ty_id: ty, dir }),
            r.data@ == data@,
            r.size == 0,
    {
        Self { comm: ValueCommon::new(ty, dir), data, size: 0 }
    }

    pub fn new_out_data(ty: TypeId, dir: Dir, size: u64) -> (r: Self)
        ensures
            r.comm == (ValueCommon { ty_id: ty, dir }),
            r.data@.len() == 0,
            r.size == size,
    {
        Self { comm: ValueCommon::new(ty, dir), data: Vec::new(), size }
    }

    /// Size of the data: the recorded size when there are no bytes.
    pub fn data_size(&self) -> (r: u64)
        ensures
            r == (if self.data@.len() == 0 {
                self.size as int
            } else {
                self.data@.len() as int
            }),
    {
        if self.data.len() == 0 {
            self.size
        } else {
            self.data.len() as u64
        }
    }

    pub fn dir(&self) -> (r: Dir)
        ensures
            r == self.comm.dir,
    {
        self.comm.dir
    }
}

#[derive(Debug)]
pub struct GroupValue {
    pub comm: ValueCommon,
    pub inner: Vec<Value>,
}

impl GroupValue {
    pub fn new(ty: TypeId, dir: Dir, data: Vec<Value>) -> (r: Self)
        ensures
            r.comm == (ValueCommon { ty_id: ty, dir }),
            r.inner@ == data@,
    {
        Self { comm: ValueCommon::new(ty, dir), inner: data }
    }
}

#[derive(Debug)]
pub struct UnionValue {
    pub comm: ValueCommon,
    pub option: Box<Value>,
    pub index: u64,
}

impl UnionValue {
    pub fn new(ty: TypeId, dir: Dir, index: u64, option: Value) -> (r: Self)
        ensures
            r.comm == (ValueCommon { ty_id: ty, dir }),
            r.index == index,
            *r.option == option,
    {
        Self { comm: ValueCommon::new(ty, dir), option: Box::new(option), index }
    }
}

#[derive(Debug, Clone, Copy, PartialEq, Eq, Structural)]
pub enum ResValueKind {
    Own(ResValueId),
    Ref(ResValueId),
    Null,
}

#[derive(Debug, Clone, Copy, PartialEq, Eq, Structural)]
pub struct ResValue {
    pub comm: ValueCommon,
    pub kind: ResValueKind,
    pub val: u64,
    pub op_div: u64,
    pub op_add: u64,
}

impl ResValue {
    pub fn new_ref(ty: TypeId, dir: Dir, res_id: ResValueId) -> (r: Self)
        ensures
            r == (ResValue {
                comm: ValueCommon { ty_id: ty, dir },
                kind: ResValueKind::Ref(res_id),
                val: 0,
                op_div: 0,
                op_add: 0,
            }),
    {
        Self {
            comm: ValueCommon::new(ty, dir),
            kind: ResValueKind::Ref(res_id),
            val: 0,
            op_div: 0,
            op_add: 0,
        }
    }

    /// A resource produced by a call: always an output value.
    pub fn new_res(ty: TypeId, res_id: ResValueId, val: u64) -> (r: Self)
        ensures
            r == (ResValue {
                comm: ValueCommon { ty_id: ty, dir: Dir::Out },
                kind: ResValueKind::Own(res_id),
                val,
                op_div: 0,
                op_add: 0,
            }),
    {
        Self {
            comm: ValueCommon::new(ty, Dir::Out),
            kind: ResValueKind::Own(res_id),
            val,
            op_div: 0,
            op_add: 0,
        }
    }

    pub fn new_null(ty: TypeId, dir: Dir, val: u64) -> (r: Self)
        ensures
            r == (ResValue {
                comm: ValueCommon { ty_id: ty, dir },
                kind: ResValueKind::Null,
                val,
                op_div: 0,
                op_add: 0,
            }),
    {
        Self { comm: ValueCommon::new(ty, dir), kind: ResValueKind::Null, val, op_div: 0, op_add: 0 }
    }

    pub fn ref_res(&self) -> (r: bool)
        ensures
            r == (self.kind is Ref),
    {
        match self.kind {
            ResValueKind::Ref(_) => true,
            _ => false,
        }
    }

    pub fn own_res(&self) -> (r: bool)
        ensures
            r == (self.kind is Own),
    {
        match self.kind {
            ResValueKind::Own(_) => true,
            _ => false,
        }
    }

    pub fn is_null(&self) -> (r: bool)
        ensures
            r == (self.kind is Null),
    {
        match self.kind {
            ResValueKind::Null => true,
            _ => false,
        }
    }

    /// Id of the produced or referenced resource.
    pub fn res_val_id(&self) -> (r: Option<ResValueId>)
        ensures
            r == (match self.kind {
                ResValueKind::Own(id) => Some(id),
                ResValueKind::Ref(id) => Some(id),
                ResValueKind::Null => None,
            }),
    {
        match self.kind {
            ResValueKind::Own(id) => Some(id),
            ResValueKind::Ref(id) => Some(id),
            ResValueKind::Null => None,
        }
    }

    pub fn dir(&self) -> (r: Dir)
        ensures
            r == self.comm.dir,
    {
        self.comm.dir
    }
}

/// Kind of a value.
#[derive(Debug, Clone, Copy, PartialEq, Eq, Structural)]
pub enum ValueKind {
    Integer,
    Ptr,
    Vma,
    Data,
    Group,
    Union,
    Res,
}

#[derive(Debug)]
pub enum ValueKindInner {
    IntegerValue(IntegerValue),
    PtrValue(PtrValue),
    VmaValue(VmaValue),
    DataValue(DataValue),
    GroupValue(GroupValue),
    UnionValue(UnionValue),
    ResValue(ResValue),
}

/// A value of a syscall argument.
#[derive(Debug)]
pub struct Value {
    pub comm: ValueCommon,
    pub inner: ValueKindInner,
}

impl Value {
    pub open spec fn spec_kind(&self) -> ValueKind {
        match self.inner {
            ValueKindInner::IntegerValue(_) => ValueKind::Integer,
            ValueKindInner::PtrValue(_) => ValueKind::Ptr,
            ValueKindInner::VmaValue(_) => ValueKind::Vma,
            ValueKindInner::DataValue(_) => ValueKind::Data,
            ValueKindInner::GroupValue(_) => ValueKind::Group,
            ValueKindInner::UnionValue(_) => ValueKind::Union,
            ValueKindInner::ResValue(_) => ValueKind::Res,
        }
    }

    pub fn kind(&self) -> (r: ValueKind)
        ensures
            r == self.spec_kind(),
    {
        match &self.inner {
            ValueKindInner::IntegerValue(_) => ValueKind::Integer,
            ValueKindInner::PtrValue(_) => ValueKind::Ptr,
            ValueKindInner::VmaValue(_) => ValueKind::Vma,
            ValueKindInner::DataValue(_) => ValueKind::Data,
            ValueKindInner::GroupValue(_) => ValueKind::Group,
            ValueKindInner::UnionValue(_) => ValueKind::Union,
            ValueKindInner::ResValue(_) => ValueKind::Res,
        }
    }

    pub fn ty_id(&self) -> (r: TypeId)
        ensures
            r == self.comm.ty_id,
    {
        self.comm.ty_id
    }

    pub fn dir(&self) -> (r: Dir)
        ensures
            r == self.comm.dir,
    {
        self.comm.dir
    }

    pub fn from_int(v: IntegerValue) -> (r: Value)
        ensures
            r.comm == v.comm,
            r.inner == ValueKindInner::IntegerValue(v),
    {
        Value { comm: v.comm, inner: ValueKindInner::IntegerValue(v) }
    }

    pub fn from_ptr(v: PtrValue) -> (r: Value)
        ensures
            r.comm == v.comm,
            r.inner == ValueKindInner::PtrValue(v),
    {
        Value { comm: v.comm, inner: ValueKindInner::PtrValue(v) }
    }

    pub fn from_vma(v: VmaValue) -> (r: Value)
        ensures
            r.comm == v.comm,
            r.inner == ValueKindInner::VmaValue(v),
    {
        Value { comm: v.comm, inner: ValueKindInner::VmaValue(v) }
    }

    pub fn from_data(v: DataValue) -> (r: Value)
        ensures
            r.comm == v.comm,
            r.inner == ValueKindInner::DataValue(v),
    {
        Value { comm: v.comm, inner: ValueKindInner::DataValue(v) }
    }

    pub fn from_group(v: GroupValue) -> (r: Value)
        ensures
            r.comm == v.comm,
            r.inner == ValueKindInner::GroupValue(v),
    {
        Value { comm: v.comm, inner: ValueKindInner::GroupValue(v) }
    }

    pub fn from_union(v: UnionValue) -> (r: Value)
        ensures
            r.comm == v.comm,
            r.inner == ValueKindInner::UnionValue(v),
    {
        Value { comm: v.comm, inner: ValueKindInner::UnionValue(v) }
    }

    pub fn from_res(v: ResValue) -> (r: Value)
        ensures
            r.comm == v.comm,
            r.inner == ValueKindInner::ResValue(v),
    {
        Value { comm: v.comm, inner: ValueKindInner::ResValue(v) }
    }

    pub fn as_int(&self) -> (r: Option<&IntegerValue>)
        ensures
            r == (match self.inner {
                ValueKindInner::IntegerValue(v) => Some(&v),
                _ => None,
            }),
    {
        match &self.inner {
            ValueKindInner::IntegerValue(v) => Some(v),
            _ => None,
        }
    }

    pub fn as_ptr(&self) -> (r: Option<&PtrValue>)
        ensures
            r == (match self.inner {
                ValueKindInner::PtrValue(v) => Some(&v),
                _ => None,
            }),
    {
        match &self.inner {
            ValueKindInner::PtrValue(v) => Some(v),
            _ => None,
        }
    }

    pub fn as_vma(&self) -> (r: Option<&VmaValue>)
        ensures
            r == (match self.inner {
                ValueKindInner::VmaValue(v) => Some(&v),
                _ => None,
            }),
    {
        match &self.inner {
            ValueKindInner::VmaValue(v) => Some(v),
            _ => None,
        }
    }

    pub fn as_data(&self) -> (r: Option<&DataValue>)
        ensures
            r == (match self.inner {
                ValueKindInner::DataValue(v) => Some(&v),
                _ => None,
            }),
    {
        match &self.inner {
            ValueKindInner::DataValue(v) => Some(v),
            _ => None,
        }
    }

    pub fn as_group(&self) -> (r: Option<&GroupValue>)
        ensures
            r == (match self.inner {
                ValueKindInner::GroupValue(v) => Some(&v),
                _ => None,
            }),
    {
        match &self.inner {
            ValueKindInner::GroupValue(v) => Some(v),
            _ => None,
        }
    }

    pub fn as_union(&self) -> (r: Option<&UnionValue>)
        ensures
            r == (match self.inner {
                ValueKindInner::UnionValue(v) => Some(&v),
                _ => None,
            }),
    {
        match &self.inner {
            ValueKindInner::UnionValue(v) => Some(v),
            _ => None,
        }
    }

    pub fn as_res(&self) -> (r: Option<&ResValue>)
        ensures
            r == (match self.inner {
                ValueKindInner::ResValue(v) => Some(&v),
                _ => None,
            }),
    {
        match &self.inner {
            ValueKindInner::ResValue(v) => Some(v),
            _ => None,
        }
    }
}

/// Hex digits, in lower case.
pub const HEX_DIGITS: [char; 16] = ['0', '1', '2', '3', '4', '5', '6', '7', '8', '9', 'a', 'b', 'c', 'd', 'e', 'f'];

/// `bs` written in hex, two lower-case digits per byte, high digit first.
pub open spec fn hex_text(bs: Seq<u8>) -> Seq<char>
    decreases bs.len(),
{
    if bs.len() == 0 {
        Seq::empty()
    } else {
        hex_text(bs.drop_last()) + seq![HEX_DIGITS@[(bs.last() / 16) as int], HEX_DIGITS@[(bs.last() % 16) as int]]
    }
}

/// Writes `val` in hex (see `hex_text`).
pub fn encode_hex(val: &[u8]) -> (r: String)
    ensures
        r@ == hex_text(val@),
{
    let mut ret = String::new();
    let mut i: usize = 0;
    while i < val.len()
        invariant
            i <= val@.len(),
            ret@ == hex_text(val@.take(i as int)),
        decreases val.len() - i,
    {
        let v = val[i];
        string_push(&mut ret, HEX_DIGITS[(v / 16) as usize]);
        string_push(&mut ret, HEX_DIGITS[(v % 16) as usize]);
        proof {
            let t = val@.take(i + 1);
            assert(t.drop_last() =~= val@.take(i as int));
            assert(t.last() == v);
            assert(ret@ =~= hex_text(t));
        }
        i = i + 1;
    }
    proof {
        assert(val@.take(val@.len() as int) =~= val@);
    }
    ret
}

/// Bytes shown as text: 0, bell, backspace, form feed, line feed, carriage
/// return, tab, vertical tab, and printable ASCII.
pub open spec fn readable_byte(b: u8) -> bool {
    b == 0 || b == 7 || b == 8 || b == 0xc || b == 0xa || b == 0xd || b == 9 || b == 0xb || (0x20 <= b <= 0x7e)
}

/// Whether every byte of `data` is shown as text (see `readable_byte`).
pub fn is_readable(data: &[u8]) -> (r: bool)
    ensures
        r == forall|i: int| 0 <= i < data@.len() ==> readable_byte(#[trigger] data@[i]),
{
    let mut i: usize = 0;
    while i < data.len()
        invariant
            i <= data@.len(),
            forall|j: int| 0 <= j < i ==> readable_byte(#[trigger] data@[j]),
        decreases data.len() - i,
    {
        let b = data[i];
        if !(b == 0 || b == 7 || b == 8 || b == 0xc || b == 0xa || b == 0xd || b == 9 || b == 0xb || (0x20 <= b
            && b <= 0x7e)) {
            return false;
        }
        i = i + 1;
    }
    true
}

} // verus!

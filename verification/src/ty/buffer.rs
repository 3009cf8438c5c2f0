//! Buffer types: blobs, strings and file names.
use crate::ty::common::CommonInfo;
use crate::ty::Dir;
use crate::value::{DataValue, Value, ValueCommon, ValueKindInner};
use vstd::prelude::*;

verus! {

/// Kind of machine code held by a `text` buffer.
#[derive(Debug, Clone, Copy, PartialEq, Eq, Structural)]
pub enum TextKind {
    Target,
    X86Real,
    X86bit16,
    X86bit32,
    X86bit64,
    Arm64,
    Ppc64,
}

impl TextKind {
    /// Number of a text kind, in declaration order.
    pub open spec fn spec_index(self) -> u64 {
        match self {
            TextKind::Target => 0,
            TextKind::X86Real => 1,
            TextKind::X86bit16 => 2,
            TextKind::X86bit32 => 3,
            TextKind::X86bit64 => 4,
            TextKind::Arm64 => 5,
            TextKind::Ppc64 => 6,
        }
    }

    /// Text kind from its number (0 to 6, in declaration order).
    pub fn from_u64(kind: u64) -> (r: Self)
        requires
            kind <= 6,
        ensures
            r.spec_index() == kind,
    {
        match kind {
            0 => TextKind::Target,
            1 => TextKind::X86Real,
            2 => TextKind::X86bit16,
            3 => TextKind::X86bit32,
            4 => TextKind::X86bit64,
            5 => TextKind::Arm64,
            _ => TextKind::Ppc64,
        }
    }
}

/// Size a default buffer value has: 0 for variable-length buffers, else the
/// type's size.
pub open spec fn default_data_size(comm: CommonInfo) -> u64 {
    if comm.varlen {
        0
    } else {
        comm.size
    }
}

/// The bytes of a default input buffer: the first special value if there is
/// one, else `size` zeros for a fixed-size buffer, else nothing.
pub open spec fn default_data(comm: CommonInfo, vals: Seq<Vec<u8>>) -> Seq<u8> {
    if vals.len() > 0 {
        vals[0]@
    } else if !comm.varlen {
        Seq::new(comm.size as nat, |i: int| 0u8)
    } else {
        Seq::empty()
    }
}

/// `v` is the default value of a buffer type with this common info and
/// these special values, in direction `dir`.
pub open spec fn is_default_data_of(comm: CommonInfo, vals: Seq<Vec<u8>>, dir: Dir, v: DataValue) -> bool {
    &&& v.comm == (ValueCommon { ty_id: comm.id, dir })
    &&& if dir == Dir::Out {
        v.data@.len() == 0 && v.size == default_data_size(comm)
    } else {
        v.data@ == default_data(comm, vals) && v.size == 0
    }
}

/// What `is_default` answers for a buffer value.
pub open spec fn data_is_default(comm: CommonInfo, vals: Seq<Vec<u8>>, v: DataValue) -> bool {
    &&& v.data@.len() == default_data_size(comm)
    &&& (v.comm.dir == Dir::Out || if vals.len() > 0 {
        vals[0]@ == v.data@
    } else {
        forall|i: int| 0 <= i < v.data@.len() ==> v.data@[i] == 0u8
    })
}

/// A copy of a byte vector.
fn copy_bytes(v: &Vec<u8>) -> (r: Vec<u8>)
    ensures
        r@ == v@,
{
    let mut out: Vec<u8> = Vec::new();
    let mut i: usize = 0;
    while i < v.len()
        invariant
            i <= v.len(),
            out@ == v@.subrange(0, i as int),
        decreases v.len() - i,
    {
        out.push(v[i]);
        i = i + 1;
    }
    out
}

fn buffer_default_value(comm: &CommonInfo, vals: &Vec<Vec<u8>>, dir: Dir) -> (r: Value)
    requires
        comm.size <= usize::MAX,
    ensures
        r.comm == (ValueCommon { ty_id: comm.id, dir }),
        r.inner matches ValueKindInner::DataValue(d) && is_default_data_of(*comm, vals@, dir, d),
{
    if dir == Dir::Out {
        let sz = if comm.varlen { 0 } else { comm.size };
        Value::from_data(DataValue::new_out_data(comm.id, dir, sz))
    } else {
        let val = if vals.len() > 0 {
            copy_bytes(&vals[0])
        } else if !comm.varlen {
            let v: Vec<u8> = vec![0u8; comm.size as usize];
            assert(v@ =~= Seq::new(comm.size as nat, |i: int| 0u8));
            v
        } else {
            Vec::new()
        };
        Value::from_data(DataValue::new(comm.id, dir, val))
    }
}

fn buffer_is_default(comm: &CommonInfo, vals: &Vec<Vec<u8>>, val: &DataValue) -> (r: bool)
    ensures
        r == data_is_default(*comm, vals@, *val),
{
    let sz = if !comm.varlen { comm.size } else { 0 };
    if val.data.len() as u64 != sz {
        return false;
    }
    if val.dir() == Dir::Out {
        return true;
    }
    if vals.len() > 0 {
        return bytes_eq(&vals[0], &val.data);
    }
    let mut i: usize = 0;
    while i < val.data.len()
        invariant
            i <= val.data@.len(),
            vals@.len() == 0,
            val.data@.len() == default_data_size(*comm),
            val.comm.dir != Dir::Out,
            forall|j: int| 0 <= j < i ==> val.data@[j] == 0u8,
        decreases val.data.len() - i,
    {
        if val.data[i] != 0 {
            assert(val.data@[i as int] != 0u8);
            return false;
        }
        i = i + 1;
    }
    true
}

/// Whether two byte vectors hold the same bytes.
pub fn bytes_eq(a: &Vec<u8>, b: &Vec<u8>) -> (r: bool)
    ensures
        r == (a@ == b@),
{
    if a.len() != b.len() {
        return false;
    }
    let mut i: usize = 0;
    while i < a.len()
        invariant
            a@.len() == b@.len(),
            i <= a@.len(),
            forall|j: int| 0 <= j < i ==> a@[j] == b@[j],
        decreases a.len() - i,
    {
        if a[i] != b[i] {
            return false;
        }
        i = i + 1;
    }
    assert(a@ =~= b@);
    true
}

/// A blob of bytes, or machine code (`text`).
#[derive(Debug)]
pub struct BufferBlobType {
    pub comm: CommonInfo,
    pub range: Option<(u64, u64)>,
    pub sub_kind: Option<String>,
    pub vals: Vec<Vec<u8>>,
    pub text_kind: Option<TextKind>,
}

impl BufferBlobType {
    pub fn id(&self) -> (r: crate::ty::TypeId)
        ensures
            r == self.comm.id,
    {
        self.comm.id
    }
    pub fn name(&self) -> (r: &str)
        ensures
            r@ == self.comm.name@,
    {
        self.comm.name.as_str()
    }
    pub fn size(&self) -> (r: u64)
        ensures
            r == self.comm.size,
    {
        self.comm.size
    }
    pub fn align(&self) -> (r: u64)
        ensures
            r == self.comm.align,
    {
        self.comm.align
    }
    pub fn optional(&self) -> (r: bool)
        ensures
            r == self.comm.optional,
    {
        self.comm.optional
    }
    pub fn varlen(&self) -> (r: bool)
        ensures
            r == self.comm.varlen,
    {
        self.comm.varlen
    }
    /// Name with any template arguments (from the first `[`) cut off.
    pub fn template_name(&self) -> (r: String)
        ensures
            r@ == crate::strings::prefix_before_bracket(self.comm.name@),
    {
        self.comm.template_name()
    }

    pub fn comm(&self) -> (r: &crate::ty::common::CommonInfo)
        ensures
            *r == self.comm,
    {
        &self.comm
    }
    pub fn bitfield_off(&self) -> (r: u64)
        ensures
            r == 0,
    {
        0
    }
    pub fn bitfield_len(&self) -> (r: u64)
        ensures
            r == 0,
    {
        0
    }
    pub fn bitfield_unit(&self) -> (r: u64)
        ensures
            r == self.comm.size,
    {
        self.comm.size
    }
    pub fn bitfield_unit_off(&self) -> (r: u64)
        ensures
            r == 0,
    {
        0
    }
    pub fn is_bitfield(&self) -> (r: bool)
        ensures
            r == false,
    {
        false
    }
    pub fn bin_fmt(&self) -> (r: crate::ty::BinaryFormat)
        ensures
            r == crate::ty::BinaryFormat::Native,
    {
        crate::ty::BinaryFormat::Native
    }

    /// Default value: empty output data of the type's size for `Out`, else
    /// the first special value, zeros, or nothing.
    pub fn default_value(&self, dir: Dir) -> (r: Value)
        requires
            self.comm.size <= usize::MAX,
        ensures
            r.comm == (ValueCommon { ty_id: self.comm.id, dir }),
            r.inner matches ValueKindInner::DataValue(d) && is_default_data_of(self.comm, self.vals@, dir, d),
    {
        buffer_default_value(&self.comm, &self.vals, dir)
    }

    /// Whether a buffer value is the default one of this type.
    pub fn is_default(&self, val: &Value) -> (r: bool)
        requires
            val.inner is DataValue,
        ensures
            r == data_is_default(self.comm, self.vals@, val.inner->DataValue_0),
    {
        match &val.inner {
            ValueKindInner::DataValue(d) => buffer_is_default(&self.comm, &self.vals, d),
            _ => false,
        }
    }

    /// Inclusive range `(start, end)` of the length, if restricted.
    pub fn range(&self) -> (r: Option<(u64, u64)>)
        ensures
            r == self.range,
    {
        self.range
    }
    pub fn sub_kind(&self) -> (r: Option<&str>)
        ensures
            r is Some <==> self.sub_kind is Some,
            r is Some ==> r->0@ == self.sub_kind->0@,
    {
        match &self.sub_kind {
            Some(s) => Some(s.as_str()),
            None => None,
        }
    }
    pub fn vals(&self) -> (r: &[Vec<u8>])
        ensures
            r@ == self.vals@,
    {
        self.vals.as_slice()
    }
    pub fn text_kind(&self) -> (r: Option<TextKind>)
        ensures
            r == self.text_kind,
    {
        self.text_kind
    }
}

#[derive(Debug)]
pub struct BufferBlobTypeBuilder {
    pub comm: CommonInfo,
    pub range: Option<(u64, u64)>,
    pub sub_kind: Option<String>,
    pub vals: Vec<Vec<u8>>,
    pub text_kind: Option<TextKind>,
}

impl BufferBlobTypeBuilder {
    pub fn new(comm: CommonInfo) -> (r: Self)
        ensures
            r.comm == comm,
            r.range is None,
            r.sub_kind is None,
            r.vals@.len() == 0,
            r.text_kind is None,
    {
        Self { comm, range: None, sub_kind: None, vals: Vec::new(), text_kind: None }
    }

    pub fn comm(&mut self, comm: CommonInfo) -> (r: &mut Self)
        ensures
            *r == (BufferBlobTypeBuilder { comm: comm, ..*old(self) }),
            *final(self) == *final(r),
    {
        self.comm = comm;
        self
    }
    pub fn range(&mut self, range: (u64, u64)) -> (r: &mut Self)
        ensures
            *r == (BufferBlobTypeBuilder { range: Some(range), ..*old(self) }),
            *final(self) == *final(r),
    {
        self.range = Some(range);
        self
    }
    /// Sets the sub kind; an empty one is ignored.
    pub fn sub_kind(&mut self, sub_kind: String) -> (r: &mut Self)
        ensures
            *r == (if sub_kind@.len() == 0 { *old(self) } else { BufferBlobTypeBuilder { sub_kind: Some(sub_kind), ..*old(self) } }),
            *final(self) == *final(r),
    {
        if !sub_kind.as_str().is_empty() {
            self.sub_kind = Some(sub_kind);
        }
        self
    }
    pub fn vals(&mut self, vals: Vec<Vec<u8>>) -> (r: &mut Self)
        ensures
            *r == (BufferBlobTypeBuilder { vals: vals, ..*old(self) }),
            *final(self) == *final(r),
    {
        self.vals = vals;
        self
    }
    pub fn text_kind(&mut self, text_kind: TextKind) -> (r: &mut Self)
        ensures
            *r == (BufferBlobTypeBuilder { text_kind: Some(text_kind), ..*old(self) }),
            *final(self) == *final(r),
    {
        self.text_kind = Some(text_kind);
        self
    }

    pub fn build(self) -> (r: BufferBlobType)
        ensures
            r == (BufferBlobType { comm: self.comm, range: self.range, sub_kind: self.sub_kind, vals: self.vals, text_kind: self.text_kind }),
    {
        BufferBlobType { comm: self.comm, range: self.range, sub_kind: self.sub_kind, vals: self.vals, text_kind: self.text_kind }
    }
}

/// A string, or a glob pattern.
#[derive(Debug)]
pub struct BufferStringType {
    pub comm: CommonInfo,
    pub sub_kind: Option<String>,
    pub vals: Vec<Vec<u8>>,
    pub noz: bool,
    pub is_glob: bool,
}

impl BufferStringType {
    pub fn id(&self) -> (r: crate::ty::TypeId)
        ensures
            r == self.comm.id,
    {
        self.comm.id
    }
    pub fn name(&self) -> (r: &str)
        ensures
            r@ == self.comm.name@,
    {
        self.comm.name.as_str()
    }
    pub fn size(&self) -> (r: u64)
        ensures
            r == self.comm.size,
    {
        self.comm.size
    }
    pub fn align(&self) -> (r: u64)
        ensures
            r == self.comm.align,
    {
        self.comm.align
    }
    pub fn optional(&self) -> (r: bool)
        ensures
            r == self.comm.optional,
    {
        self.comm.optional
    }
    pub fn varlen(&self) -> (r: bool)
        ensures
            r == self.comm.varlen,
    {
        self.comm.varlen
    }
    /// Name with any template arguments (from the first `[`) cut off.
    pub fn template_name(&self) -> (r: String)
        ensures
            r@ == crate::strings::prefix_before_bracket(self.comm.name@),
    {
        self.comm.template_name()
    }

    pub fn comm(&self) -> (r: &crate::ty::common::CommonInfo)
        ensures
            *r == self.comm,
    {
        &self.comm
    }
    pub fn bitfield_off(&self) -> (r: u64)
        ensures
            r == 0,
    {
        0
    }
    pub fn bitfield_len(&self) -> (r: u64)
        ensures
            r == 0,
    {
        0
    }
    pub fn bitfield_unit(&self) -> (r: u64)
        ensures
            r == self.comm.size,
    {
        self.comm.size
    }
    pub fn bitfield_unit_off(&self) -> (r: u64)
        ensures
            r == 0,
    {
        0
    }
    pub fn is_bitfield(&self) -> (r: bool)
        ensures
            r == false,
    {
        false
    }
    pub fn bin_fmt(&self) -> (r: crate::ty::BinaryFormat)
        ensures
            r == crate::ty::BinaryFormat::Native,
    {
        crate::ty::BinaryFormat::Native
    }

    /// Default value: empty output data of the type's size for `Out`, else
    /// the first special value, zeros, or nothing.
    pub fn default_value(&self, dir: Dir) -> (r: Value)
        requires
            self.comm.size <= usize::MAX,
        ensures
            r.comm == (ValueCommon { ty_id: self.comm.id, dir }),
            r.inner matches ValueKindInner::DataValue(d) && is_default_data_of(self.comm, self.vals@, dir, d),
    {
        buffer_default_value(&self.comm, &self.vals, dir)
    }

    /// Whether a buffer value is the default one of this type.
    pub fn is_default(&self, val: &Value) -> (r: bool)
        requires
            val.inner is DataValue,
        ensures
            r == data_is_default(self.comm, self.vals@, val.inner->DataValue_0),
    {
        match &val.inner {
            ValueKindInner::DataValue(d) => buffer_is_default(&self.comm, &self.vals, d),
            _ => false,
        }
    }

    pub fn sub_kind(&self) -> (r: Option<&str>)
        ensures
            r is Some <==> self.sub_kind is Some,
            r is Some ==> r->0@ == self.sub_kind->0@,
    {
        match &self.sub_kind {
            Some(s) => Some(s.as_str()),
            None => None,
        }
    }
    pub fn vals(&self) -> (r: &[Vec<u8>])
        ensures
            r@ == self.vals@,
    {
        self.vals.as_slice()
    }
    pub fn noz(&self) -> (r: bool)
        ensures
            r == self.noz,
    {
        self.noz
    }
    pub fn is_glob(&self) -> (r: bool)
        ensures
            r == self.is_glob,
    {
        self.is_glob
    }
}

#[derive(Debug)]
pub struct BufferStringTypeBuilder {
    pub comm: CommonInfo,
    pub sub_kind: Option<String>,
    pub vals: Vec<Vec<u8>>,
    pub noz: bool,
    pub is_glob: bool,
}

impl BufferStringTypeBuilder {
    pub fn new(comm: CommonInfo) -> (r: Self)
        ensures
            r.comm == comm,
            r.sub_kind is None,
            r.vals@.len() == 0,
            !r.noz,
            !r.is_glob,
    {
        Self { comm, sub_kind: None, vals: Vec::new(), noz: false, is_glob: false }
    }

    pub fn comm(&mut self, comm: CommonInfo) -> (r: &mut Self)
        ensures
            *r == (BufferStringTypeBuilder { comm: comm, ..*old(self) }),
            *final(self) == *final(r),
    {
        self.comm = comm;
        self
    }
    /// Sets the sub kind; an empty one is ignored.
    pub fn sub_kind(&mut self, sub_kind: String) -> (r: &mut Self)
        ensures
            *r == (if sub_kind@.len() == 0 { *old(self) } else { BufferStringTypeBuilder { sub_kind: Some(sub_kind), ..*old(self) } }),
            *final(self) == *final(r),
    {
        if !sub_kind.as_str().is_empty() {
            self.sub_kind = Some(sub_kind);
        }
        self
    }
    pub fn vals(&mut self, vals: Vec<Vec<u8>>) -> (r: &mut Self)
        ensures
            *r == (BufferStringTypeBuilder { vals: vals, ..*old(self) }),
            *final(self) == *final(r),
    {
        self.vals = vals;
        self
    }
    pub fn noz(&mut self, noz: bool) -> (r: &mut Self)
        ensures
            *r == (BufferStringTypeBuilder { noz: noz, ..*old(self) }),
            *final(self) == *final(r),
    {
        self.noz = noz;
        self
    }
    pub fn is_glob(&mut self, is_glob: bool) -> (r: &mut Self)
        ensures
            *r == (BufferStringTypeBuilder { is_glob: is_glob, ..*old(self) }),
            *final(self) == *final(r),
    {
        self.is_glob = is_glob;
        self
    }

    pub fn build(self) -> (r: BufferStringType)
        ensures
            r == (BufferStringType { comm: self.comm, sub_kind: self.sub_kind, vals: self.vals, noz: self.noz, is_glob: self.is_glob }),
    {
        BufferStringType { comm: self.comm, sub_kind: self.sub_kind, vals: self.vals, noz: self.noz, is_glob: self.is_glob }
    }
}

/// A file name.
#[derive(Debug)]
pub struct BufferFilenameType {
    pub comm: CommonInfo,
    pub vals: Vec<Vec<u8>>,
    pub noz: bool,
}

impl BufferFilenameType {
    pub fn id(&self) -> (r: crate::ty::TypeId)
        ensures
            r == self.comm.id,
    {
        self.comm.id
    }
    pub fn name(&self) -> (r: &str)
        ensures
            r@ == self.comm.name@,
    {
        self.comm.name.as_str()
    }
    pub fn size(&self) -> (r: u64)
        ensures
            r == self.comm.size,
    {
        self.comm.size
    }
    pub fn align(&self) -> (r: u64)
        ensures
            r == self.comm.align,
    {
        self.comm.align
    }
    pub fn optional(&self) -> (r: bool)
        ensures
            r == self.comm.optional,
    {
        self.comm.optional
    }
    pub fn varlen(&self) -> (r: bool)
        ensures
            r == self.comm.varlen,
    {
        self.comm.varlen
    }
    /// Name with any template arguments (from the first `[`) cut off.
    pub fn template_name(&self) -> (r: String)
        ensures
            r@ == crate::strings::prefix_before_bracket(self.comm.name@),
    {
        self.comm.template_name()
    }

    pub fn comm(&self) -> (r: &crate::ty::common::CommonInfo)
        ensures
            *r == self.comm,
    {
        &self.comm
    }
    pub fn bitfield_off(&self) -> (r: u64)
        ensures
            r == 0,
    {
        0
    }
    pub fn bitfield_len(&self) -> (r: u64)
        ensures
            r == 0,
    {
        0
    }
    pub fn bitfield_unit(&self) -> (r: u64)
        ensures
            r == self.comm.size,
    {
        self.comm.size
    }
    pub fn bitfield_unit_off(&self) -> (r: u64)
        ensures
            r == 0,
    {
        0
    }
    pub fn is_bitfield(&self) -> (r: bool)
        ensures
            r == false,
    {
        false
    }
    pub fn bin_fmt(&self) -> (r: crate::ty::BinaryFormat)
        ensures
            r == crate::ty::BinaryFormat::Native,
    {
        crate::ty::BinaryFormat::Native
    }

    /// Default value: empty output data of the type's size for `Out`, else
    /// the first special value, zeros, or nothing.
    pub fn default_value(&self, dir: Dir) -> (r: Value)
        requires
            self.comm.size <= usize::MAX,
        ensures
            r.comm == (ValueCommon { ty_id: self.comm.id, dir }),
            r.inner matches ValueKindInner::DataValue(d) && is_default_data_of(self.comm, self.vals@, dir, d),
    {
        buffer_default_value(&self.comm, &self.vals, dir)
    }

    /// Whether a buffer value is the default one of this type.
    pub fn is_default(&self, val: &Value) -> (r: bool)
        requires
            val.inner is DataValue,
        ensures
            r == data_is_default(self.comm, self.vals@, val.inner->DataValue_0),
    {
        match &val.inner {
            ValueKindInner::DataValue(d) => buffer_is_default(&self.comm, &self.vals, d),
            _ => false,
        }
    }

    pub fn vals(&self) -> (r: &[Vec<u8>])
        ensures
            r@ == self.vals@,
    {
        self.vals.as_slice()
    }
    pub fn noz(&self) -> (r: bool)
        ensures
            r == self.noz,
    {
        self.noz
    }
}

#[derive(Debug)]
pub struct BufferFilenameTypeBuilder {
    pub comm: CommonInfo,
    pub vals: Vec<Vec<u8>>,
    pub noz: bool,
}

impl BufferFilenameTypeBuilder {
    pub fn new(comm: CommonInfo) -> (r: Self)
        ensures
            r.comm == comm,
            r.vals@.len() == 0,
            !r.noz,
    {
        Self { comm, vals: Vec::new(), noz: false }
    }

    pub fn comm(&mut self, comm: CommonInfo) -> (r: &mut Self)
        ensures
            *r == (BufferFilenameTypeBuilder { comm: comm, ..*old(self) }),
            *final(self) == *final(r),
    {
        self.comm = comm;
        self
    }
    pub fn vals(&mut self, vals: Vec<Vec<u8>>) -> (r: &mut Self)
        ensures
            *r == (BufferFilenameTypeBuilder { vals: vals, ..*old(self) }),
            *final(self) == *final(r),
    {
        self.vals = vals;
        self
    }
    pub fn noz(&mut self, noz: bool) -> (r: &mut Self)
        ensures
            *r == (BufferFilenameTypeBuilder { noz: noz, ..*old(self) }),
            *final(self) == *final(r),
    {
        self.noz = noz;
        self
    }

    pub fn build(self) -> (r: BufferFilenameType)
        ensures
            r == (BufferFilenameType { comm: self.comm, vals: self.vals, noz: self.noz }),
    {
        BufferFilenameType { comm: self.comm, vals: self.vals, noz: self.noz }
    }
}

} // verus!

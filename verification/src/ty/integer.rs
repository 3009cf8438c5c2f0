//! Integer-like types: const, int, flags, len, proc and csum.
use crate::ty::common::CommonInfo;
use crate::ty::BinaryFormat;
use vstd::prelude::*;

verus! {

/// Maximum number of processes.
pub const MAX_PIDS: u64 = 32;

/// Default value of a proc value.
pub const PROC_DEFAULT_VALUE: u64 = 0xffffffffffffffff;

/// Integer format.
#[derive(Debug, Clone, Copy, PartialEq, Eq, Structural)]
pub struct IntFormat {
    pub fmt: BinaryFormat,
    pub bitfield_off: u64,
    pub bitfield_len: u64,
    pub bitfield_unit: u64,
    pub bitfield_unit_off: u64,
}

impl IntFormat {
    /// Native format, not a bitfield.
    pub fn new() -> (r: Self)
        ensures
            r == Self::spec_default(),
    {
        IntFormat {
            fmt: BinaryFormat::Native,
            bitfield_off: 0,
            bitfield_len: 0,
            bitfield_unit: 0,
            bitfield_unit_off: 0,
        }
    }

    pub open spec fn spec_default() -> Self {
        IntFormat {
            fmt: BinaryFormat::Native,
            bitfield_off: 0,
            bitfield_len: 0,
            bitfield_unit: 0,
            bitfield_unit_off: 0,
        }
    }
}

/// Width in bits of an integer of this format and byte size.
pub open spec fn spec_bit_size(f: IntFormat, size: u64) -> u64 {
    if f.fmt == BinaryFormat::Native || f.fmt == BinaryFormat::BigEndian {
        if f.bitfield_len != 0 {
            f.bitfield_len
        } else {
            (size * 8) as u64
        }
    } else {
        64
    }
}

/// The size in bits is representable where it is computed.
pub open spec fn bit_size_fits(f: IntFormat, size: u64) -> bool {
    (f.fmt == BinaryFormat::Native || f.fmt == BinaryFormat::BigEndian) && f.bitfield_len == 0
        ==> size * 8 <= u64::MAX
}

pub fn int_bit_size(f: IntFormat, size: u64) -> (r: u64)
    requires
        bit_size_fits(f, size),
    ensures
        r == spec_bit_size(f, size),
{
    match f.fmt {
        BinaryFormat::Native | BinaryFormat::BigEndian => {
            if f.bitfield_len != 0 {
                f.bitfield_len
            } else {
                size * 8
            }
        },
        _ => 64,
    }
}

/// A constant integer.
#[derive(Debug)]
pub struct ConstType {
    pub comm: CommonInfo,
    pub int_fmt: IntFormat,
    pub const_val: u64,
    pub pad: bool,
}

impl ConstType {
    pub fn id(&self) -> (r: crate::ty::TypeId)
        ensures
            r == self.comm.id,
    {
        self.comm.id
    }
    pub fn name(&self) -> (r: &str)
        ensures
            r@ == self.comm.name@,
    {
        self.comm.name.as_str()
    }
    pub fn size(&self) -> (r: u64)
        ensures
            r == self.comm.size,
    {
        self.comm.size
    }
    pub fn align(&self) -> (r: u64)
        ensures
            r == self.comm.align,
    {
        self.comm.align
    }
    pub fn optional(&self) -> (r: bool)
        ensures
            r == self.comm.optional,
    {
        self.comm.optional
    }
    pub fn varlen(&self) -> (r: bool)
        ensures
            r == self.comm.varlen,
    {
        self.comm.varlen
    }
    /// Name with any template arguments (from the first `[`) cut off.
    pub fn template_name(&self) -> (r: String)
        ensures
            r@ == crate::strings::prefix_before_bracket(self.comm.name@),
    {
        self.comm.template_name()
    }

    pub fn comm(&self) -> (r: &crate::ty::common::CommonInfo)
        ensures
            *r == self.comm,
    {
        &self.comm
    }
    pub fn format(&self) -> (r: crate::ty::BinaryFormat)
        ensures
            r == self.int_fmt.fmt,
    {
        self.int_fmt.fmt
    }
    pub fn bitfield_off(&self) -> (r: u64)
        ensures
            r == self.int_fmt.bitfield_off,
    {
        self.int_fmt.bitfield_off
    }
    pub fn bitfield_len(&self) -> (r: u64)
        ensures
            r == self.int_fmt.bitfield_len,
    {
        self.int_fmt.bitfield_len
    }
    /// Unit size of a bitfield, or the size of the integer.
    pub fn bitfield_unit(&self) -> (r: u64)
        ensures
            r == (if self.int_fmt.bitfield_len != 0 {
                self.int_fmt.bitfield_unit
            } else {
                self.comm.size
            }),
    {
        if self.int_fmt.bitfield_len != 0 {
            self.int_fmt.bitfield_unit
        } else {
            self.comm.size
        }
    }
    pub fn bitfield_unit_off(&self) -> (r: u64)
        ensures
            r == self.int_fmt.bitfield_unit_off,
    {
        self.int_fmt.bitfield_unit_off
    }
    /// Width in bits: the bitfield length, or the size in bits, or 64 for
    /// textual formats.
    pub fn bit_size(&self) -> (r: u64)
        requires
            crate::ty::integer::bit_size_fits(self.int_fmt, self.comm.size),
        ensures
            r == crate::ty::integer::spec_bit_size(self.int_fmt, self.comm.size),
    {
        crate::ty::integer::int_bit_size(self.int_fmt, self.comm.size)
    }

    pub fn is_bitfield(&self) -> (r: bool)
        ensures
            r == (self.int_fmt.bitfield_len != 0),
    {
        self.int_fmt.bitfield_len != 0
    }

    /// Default value: an integer holding `default_special_value`.
    pub fn default_value(&self, dir: crate::ty::Dir) -> (r: crate::value::Value)
        ensures
            r.comm == (crate::value::ValueCommon { ty_id: self.comm.id, dir }),
            r.inner == crate::value::ValueKindInner::IntegerValue(crate::value::IntegerValue {
                comm: crate::value::ValueCommon { ty_id: self.comm.id, dir },
                val: self.spec_default_special_value(),
            }),
    {
        crate::value::Value::from_int(
            crate::value::IntegerValue::new(self.comm.id, dir, self.default_special_value()),
        )
    }

    /// Whether an integer value holds `default_special_value`.
    pub fn is_default(&self, val: &crate::value::Value) -> (r: bool)
        requires
            val.inner is IntegerValue,
        ensures
            r == (val.inner->IntegerValue_0.val == self.spec_default_special_value()),
    {
        match &val.inner {
            crate::value::ValueKindInner::IntegerValue(v) => v.val == self.default_special_value(),
            _ => false,
        }
    }

    pub open spec fn spec_default_special_value(&self) -> u64 {
        self.const_val
    }

    /// Value used for default values of this type.
    pub fn default_special_value(&self) -> (r: u64)
        ensures
            r == self.spec_default_special_value(),
    {
        self.const_val
    }

    pub fn int_fmt(&self) -> (r: &IntFormat)
        ensures
            *r == self.int_fmt,
    {
        &self.int_fmt
    }
    pub fn const_val(&self) -> (r: u64)
        ensures
            r == self.const_val,
    {
        self.const_val
    }
    pub fn pad(&self) -> (r: bool)
        ensures
            r == self.pad,
    {
        self.pad
    }
}

#[derive(Debug)]
pub struct ConstTypeBuilder {
    pub comm: CommonInfo,
    pub int_fmt: IntFormat,
    pub const_val: u64,
    pub pad: bool,
}

impl ConstTypeBuilder {
    /// Start building from the common info.
    pub fn new(comm: CommonInfo) -> (r: Self)
        ensures
            r.comm == comm,
            r.int_fmt == IntFormat::spec_default(),
            r.const_val == 0,
            r.pad == false,
    {
        Self { comm: comm, int_fmt: IntFormat::new(), const_val: 0, pad: false }
    }

    pub fn comm(&mut self, comm: CommonInfo) -> (r: &mut Self)
        ensures
            *r == (ConstTypeBuilder { comm: comm, ..*old(self) }),
            *final(self) == *final(r),
    {
        self.comm = comm;
        self
    }
    pub fn int_fmt(&mut self, int_fmt: IntFormat) -> (r: &mut Self)
        ensures
            *r == (ConstTypeBuilder { int_fmt: int_fmt, ..*old(self) }),
            *final(self) == *final(r),
    {
        self.int_fmt = int_fmt;
        self
    }
    pub fn const_val(&mut self, const_val: u64) -> (r: &mut Self)
        ensures
            *r == (ConstTypeBuilder { const_val: const_val, ..*old(self) }),
            *final(self) == *final(r),
    {
        self.const_val = const_val;
        self
    }
    pub fn pad(&mut self, pad: bool) -> (r: &mut Self)
        ensures
            *r == (ConstTypeBuilder { pad: pad, ..*old(self) }),
            *final(self) == *final(r),
    {
        self.pad = pad;
        self
    }

    pub fn build(self) -> (r: ConstType)
        ensures
            r == (ConstType { comm: self.comm, int_fmt: self.int_fmt, const_val: self.const_val, pad: self.pad }),
    {
        ConstType { comm: self.comm, int_fmt: self.int_fmt, const_val: self.const_val, pad: self.pad }
    }
}

/// A plain integer, optionally restricted to an inclusive range and an alignment.
#[derive(Debug)]
pub struct IntType {
    pub comm: CommonInfo,
    pub int_fmt: IntFormat,
    pub range: Option<(u64, u64)>,
    pub align: u64,
}

impl IntType {
    pub fn id(&self) -> (r: crate::ty::TypeId)
        ensures
            r == self.comm.id,
    {
        self.comm.id
    }
    pub fn name(&self) -> (r: &str)
        ensures
            r@ == self.comm.name@,
    {
        self.comm.name.as_str()
    }
    pub fn size(&self) -> (r: u64)
        ensures
            r == self.comm.size,
    {
        self.comm.size
    }
    pub fn align(&self) -> (r: u64)
        ensures
            r == self.comm.align,
    {
        self.comm.align
    }
    pub fn optional(&self) -> (r: bool)
        ensures
            r == self.comm.optional,
    {
        self.comm.optional
    }
    pub fn varlen(&self) -> (r: bool)
        ensures
            r == self.comm.varlen,
    {
        self.comm.varlen
    }
    /// Name with any template arguments (from the first `[`) cut off.
    pub fn template_name(&self) -> (r: String)
        ensures
            r@ == crate::strings::prefix_before_bracket(self.comm.name@),
    {
        self.comm.template_name()
    }

    pub fn comm(&self) -> (r: &crate::ty::common::CommonInfo)
        ensures
            *r == self.comm,
    {
        &self.comm
    }
    pub fn format(&self) -> (r: crate::ty::BinaryFormat)
        ensures
            r == self.int_fmt.fmt,
    {
        self.int_fmt.fmt
    }
    pub fn bitfield_off(&self) -> (r: u64)
        ensures
            r == self.int_fmt.bitfield_off,
    {
        self.int_fmt.bitfield_off
    }
    pub fn bitfield_len(&self) -> (r: u64)
        ensures
            r == self.int_fmt.bitfield_len,
    {
        self.int_fmt.bitfield_len
    }
    /// Unit size of a bitfield, or the size of the integer.
    pub fn bitfield_unit(&self) -> (r: u64)
        ensures
            r == (if self.int_fmt.bitfield_len != 0 {
                self.int_fmt.bitfield_unit
            } else {
                self.comm.size
            }),
    {
        if self.int_fmt.bitfield_len != 0 {
            self.int_fmt.bitfield_unit
        } else {
            self.comm.size
        }
    }
    pub fn bitfield_unit_off(&self) -> (r: u64)
        ensures
            r == self.int_fmt.bitfield_unit_off,
    {
        self.int_fmt.bitfield_unit_off
    }
    /// Width in bits: the bitfield length, or the size in bits, or 64 for
    /// textual formats.
    pub fn bit_size(&self) -> (r: u64)
        requires
            crate::ty::integer::bit_size_fits(self.int_fmt, self.comm.size),
        ensures
            r == crate::ty::integer::spec_bit_size(self.int_fmt, self.comm.size),
    {
        crate::ty::integer::int_bit_size(self.int_fmt, self.comm.size)
    }

    pub fn is_bitfield(&self) -> (r: bool)
        ensures
            r == (self.int_fmt.bitfield_len != 0),
    {
        self.int_fmt.bitfield_len != 0
    }

    /// Default value: an integer holding `default_special_value`.
    pub fn default_value(&self, dir: crate::ty::Dir) -> (r: crate::value::Value)
        ensures
            r.comm == (crate::value::ValueCommon { ty_id: self.comm.id, dir }),
            r.inner == crate::value::ValueKindInner::IntegerValue(crate::value::IntegerValue {
                comm: crate::value::ValueCommon { ty_id: self.comm.id, dir },
                val: self.spec_default_special_value(),
            }),
    {
        crate::value::Value::from_int(
            crate::value::IntegerValue::new(self.comm.id, dir, self.default_special_value()),
        )
    }

    /// Whether an integer value holds `default_special_value`.
    pub fn is_default(&self, val: &crate::value::Value) -> (r: bool)
        requires
            val.inner is IntegerValue,
        ensures
            r == (val.inner->IntegerValue_0.val == self.spec_default_special_value()),
    {
        match &val.inner {
            crate::value::ValueKindInner::IntegerValue(v) => v.val == self.default_special_value(),
            _ => false,
        }
    }

    pub open spec fn spec_default_special_value(&self) -> u64 {
        0
    }

    /// Value used for default values of this type.
    pub fn default_special_value(&self) -> (r: u64)
        ensures
            r == self.spec_default_special_value(),
    {
        0
    }

    pub fn int_fmt(&self) -> (r: &IntFormat)
        ensures
            *r == self.int_fmt,
    {
        &self.int_fmt
    }
    /// Inclusive range `(start, end)` of the value, if restricted.
    pub fn range(&self) -> (r: Option<(u64, u64)>)
        ensures
            r == self.range,
    {
        self.range
    }
    pub fn int_align(&self) -> (r: u64)
        ensures
            r == self.align,
    {
        self.align
    }
}

#[derive(Debug)]
pub struct IntTypeBuilder {
    pub comm: CommonInfo,
    pub int_fmt: IntFormat,
    pub range: Option<(u64, u64)>,
    pub align: u64,
}

impl IntTypeBuilder {
    /// Start building from the common info.
    pub fn new(comm: CommonInfo) -> (r: Self)
        ensures
            r.comm == comm,
            r.int_fmt == IntFormat::spec_default(),
            r.range is None,
            r.align == 0,
    {
        Self { comm: comm, int_fmt: IntFormat::new(), range: None, align: 0 }
    }

    pub fn comm(&mut self, comm: CommonInfo) -> (r: &mut Self)
        ensures
            *r == (IntTypeBuilder { comm: comm, ..*old(self) }),
            *final(self) == *final(r),
    {
        self.comm = comm;
        self
    }
    pub fn int_fmt(&mut self, int_fmt: IntFormat) -> (r: &mut Self)
        ensures
            *r == (IntTypeBuilder { int_fmt: int_fmt, ..*old(self) }),
            *final(self) == *final(r),
    {
        self.int_fmt = int_fmt;
        self
    }
    pub fn range(&mut self, range: (u64, u64)) -> (r: &mut Self)
        ensures
            *r == (IntTypeBuilder { range: Some(range), ..*old(self) }),
            *final(self) == *final(r),
    {
        self.range = Some(range);
        self
    }
    pub fn align(&mut self, align: u64) -> (r: &mut Self)
        ensures
            *r == (IntTypeBuilder { align: align, ..*old(self) }),
            *final(self) == *final(r),
    {
        self.align = align;
        self
    }

    pub fn build(self) -> (r: IntType)
        ensures
            r == (IntType { comm: self.comm, int_fmt: self.int_fmt, range: self.range, align: self.align }),
    {
        IntType { comm: self.comm, int_fmt: self.int_fmt, range: self.range, align: self.align }
    }
}

/// A set of flag values.
#[derive(Debug)]
pub struct FlagsType {
    pub comm: CommonInfo,
    pub int_fmt: IntFormat,
    pub vals: Vec<u64>,
    pub bit_mask: bool,
}

impl FlagsType {
    pub fn id(&self) -> (r: crate::ty::TypeId)
        ensures
            r == self.comm.id,
    {
        self.comm.id
    }
    pub fn name(&self) -> (r: &str)
        ensures
            r@ == self.comm.name@,
    {
        self.comm.name.as_str()
    }
    pub fn size(&self) -> (r: u64)
        ensures
            r == self.comm.size,
    {
        self.comm.size
    }
    pub fn align(&self) -> (r: u64)
        ensures
            r == self.comm.align,
    {
        self.comm.align
    }
    pub fn optional(&self) -> (r: bool)
        ensures
            r == self.comm.optional,
    {
        self.comm.optional
    }
    pub fn varlen(&self) -> (r: bool)
        ensures
            r == self.comm.varlen,
    {
        self.comm.varlen
    }
    /// Name with any template arguments (from the first `[`) cut off.
    pub fn template_name(&self) -> (r: String)
        ensures
            r@ == crate::strings::prefix_before_bracket(self.comm.name@),
    {
        self.comm.template_name()
    }

    pub fn comm(&self) -> (r: &crate::ty::common::CommonInfo)
        ensures
            *r == self.comm,
    {
        &self.comm
    }
    pub fn format(&self) -> (r: crate::ty::BinaryFormat)
        ensures
            r == self.int_fmt.fmt,
    {
        self.int_fmt.fmt
    }
    pub fn bitfield_off(&self) -> (r: u64)
        ensures
            r == self.int_fmt.bitfield_off,
    {
        self.int_fmt.bitfield_off
    }
    pub fn bitfield_len(&self) -> (r: u64)
        ensures
            r == self.int_fmt.bitfield_len,
    {
        self.int_fmt.bitfield_len
    }
    /// Unit size of a bitfield, or the size of the integer.
    pub fn bitfield_unit(&self) -> (r: u64)
        ensures
            r == (if self.int_fmt.bitfield_len != 0 {
                self.int_fmt.bitfield_unit
            } else {
                self.comm.size
            }),
    {
        if self.int_fmt.bitfield_len != 0 {
            self.int_fmt.bitfield_unit
        } else {
            self.comm.size
        }
    }
    pub fn bitfield_unit_off(&self) -> (r: u64)
        ensures
            r == self.int_fmt.bitfield_unit_off,
    {
        self.int_fmt.bitfield_unit_off
    }
    /// Width in bits: the bitfield length, or the size in bits, or 64 for
    /// textual formats.
    pub fn bit_size(&self) -> (r: u64)
        requires
            crate::ty::integer::bit_size_fits(self.int_fmt, self.comm.size),
        ensures
            r == crate::ty::integer::spec_bit_size(self.int_fmt, self.comm.size),
    {
        crate::ty::integer::int_bit_size(self.int_fmt, self.comm.size)
    }

    pub fn is_bitfield(&self) -> (r: bool)
        ensures
            r == (self.int_fmt.bitfield_len != 0),
    {
        self.int_fmt.bitfield_len != 0
    }

    /// Default value: an integer holding `default_special_value`.
    pub fn default_value(&self, dir: crate::ty::Dir) -> (r: crate::value::Value)
        ensures
            r.comm == (crate::value::ValueCommon { ty_id: self.comm.id, dir }),
            r.inner == crate::value::ValueKindInner::IntegerValue(crate::value::IntegerValue {
                comm: crate::value::ValueCommon { ty_id: self.comm.id, dir },
                val: self.spec_default_special_value(),
            }),
    {
        crate::value::Value::from_int(
            crate::value::IntegerValue::new(self.comm.id, dir, self.default_special_value()),
        )
    }

    /// Whether an integer value holds `default_special_value`.
    pub fn is_default(&self, val: &crate::value::Value) -> (r: bool)
        requires
            val.inner is IntegerValue,
        ensures
            r == (val.inner->IntegerValue_0.val == self.spec_default_special_value()),
    {
        match &val.inner {
            crate::value::ValueKindInner::IntegerValue(v) => v.val == self.default_special_value(),
            _ => false,
        }
    }

    pub open spec fn spec_default_special_value(&self) -> u64 {
        0
    }

    /// Value used for default values of this type.
    pub fn default_special_value(&self) -> (r: u64)
        ensures
            r == self.spec_default_special_value(),
    {
        0
    }

    pub fn int_fmt(&self) -> (r: &IntFormat)
        ensures
            *r == self.int_fmt,
    {
        &self.int_fmt
    }
    pub fn vals(&self) -> (r: &[u64])
        ensures
            r@ == self.vals@,
    {
        self.vals.as_slice()
    }
    pub fn bit_mask(&self) -> (r: bool)
        ensures
            r == self.bit_mask,
    {
        self.bit_mask
    }
}

#[derive(Debug)]
pub struct FlagsTypeBuilder {
    pub comm: CommonInfo,
    pub int_fmt: IntFormat,
    pub vals: Vec<u64>,
    pub bit_mask: bool,
}

impl FlagsTypeBuilder {
    /// Start building from the common info.
    pub fn new(comm: CommonInfo) -> (r: Self)
        ensures
            r.comm == comm,
            r.int_fmt == IntFormat::spec_default(),
            r.vals@.len() == 0,
            r.bit_mask == true,
    {
        Self { comm: comm, int_fmt: IntFormat::new(), vals: Vec::new(), bit_mask: true }
    }

    pub fn comm(&mut self, comm: CommonInfo) -> (r: &mut Self)
        ensures
            *r == (FlagsTypeBuilder { comm: comm, ..*old(self) }),
            *final(self) == *final(r),
    {
        self.comm = comm;
        self
    }
    pub fn int_fmt(&mut self, int_fmt: IntFormat) -> (r: &mut Self)
        ensures
            *r == (FlagsTypeBuilder { int_fmt: int_fmt, ..*old(self) }),
            *final(self) == *final(r),
    {
        self.int_fmt = int_fmt;
        self
    }
    pub fn vals(&mut self, vals: Vec<u64>) -> (r: &mut Self)
        ensures
            *r == (FlagsTypeBuilder { vals: vals, ..*old(self) }),
            *final(self) == *final(r),
    {
        self.vals = vals;
        self
    }
    pub fn bit_mask(&mut self, bit_mask: bool) -> (r: &mut Self)
        ensures
            *r == (FlagsTypeBuilder { bit_mask: bit_mask, ..*old(self) }),
            *final(self) == *final(r),
    {
        self.bit_mask = bit_mask;
        self
    }

    pub fn build(self) -> (r: FlagsType)
        ensures
            r == (FlagsType { comm: self.comm, int_fmt: self.int_fmt, vals: self.vals, bit_mask: self.bit_mask }),
    {
        FlagsType { comm: self.comm, int_fmt: self.int_fmt, vals: self.vals, bit_mask: self.bit_mask }
    }
}

/// Length, byte size, bit size or offset of another argument.
#[derive(Debug)]
pub struct LenType {
    pub comm: CommonInfo,
    pub int_fmt: IntFormat,
    pub bit_size: u64,
    pub offset: bool,
    pub path: Vec<String>,
}

impl LenType {
    pub fn id(&self) -> (r: crate::ty::TypeId)
        ensures
            r == self.comm.id,
    {
        self.comm.id
    }
    pub fn name(&self) -> (r: &str)
        ensures
            r@ == self.comm.name@,
    {
        self.comm.name.as_str()
    }
    pub fn size(&self) -> (r: u64)
        ensures
            r == self.comm.size,
    {
        self.comm.size
    }
    pub fn align(&self) -> (r: u64)
        ensures
            r == self.comm.align,
    {
        self.comm.align
    }
    pub fn optional(&self) -> (r: bool)
        ensures
            r == self.comm.optional,
    {
        self.comm.optional
    }
    pub fn varlen(&self) -> (r: bool)
        ensures
            r == self.comm.varlen,
    {
        self.comm.varlen
    }
    /// Name with any template arguments (from the first `[`) cut off.
    pub fn template_name(&self) -> (r: String)
        ensures
            r@ == crate::strings::prefix_before_bracket(self.comm.name@),
    {
        self.comm.template_name()
    }

    pub fn comm(&self) -> (r: &crate::ty::common::CommonInfo)
        ensures
            *r == self.comm,
    {
        &self.comm
    }
    pub fn format(&self) -> (r: crate::ty::BinaryFormat)
        ensures
            r == self.int_fmt.fmt,
    {
        self.int_fmt.fmt
    }
    pub fn bitfield_off(&self) -> (r: u64)
        ensures
            r == self.int_fmt.bitfield_off,
    {
        self.int_fmt.bitfield_off
    }
    pub fn bitfield_len(&self) -> (r: u64)
        ensures
            r == self.int_fmt.bitfield_len,
    {
        self.int_fmt.bitfield_len
    }
    /// Unit size of a bitfield, or the size of the integer.
    pub fn bitfield_unit(&self) -> (r: u64)
        ensures
            r == (if self.int_fmt.bitfield_len != 0 {
                self.int_fmt.bitfield_unit
            } else {
                self.comm.size
            }),
    {
        if self.int_fmt.bitfield_len != 0 {
            self.int_fmt.bitfield_unit
        } else {
            self.comm.size
        }
    }
    pub fn bitfield_unit_off(&self) -> (r: u64)
        ensures
            r == self.int_fmt.bitfield_unit_off,
    {
        self.int_fmt.bitfield_unit_off
    }
    /// Width in bits: the bitfield length, or the size in bits, or 64 for
    /// textual formats.
    pub fn bit_size(&self) -> (r: u64)
        requires
            crate::ty::integer::bit_size_fits(self.int_fmt, self.comm.size),
        ensures
            r == crate::ty::integer::spec_bit_size(self.int_fmt, self.comm.size),
    {
        crate::ty::integer::int_bit_size(self.int_fmt, self.comm.size)
    }

    pub fn is_bitfield(&self) -> (r: bool)
        ensures
            r == (self.int_fmt.bitfield_len != 0),
    {
        self.int_fmt.bitfield_len != 0
    }

    /// Default value: an integer holding `default_special_value`.
    pub fn default_value(&self, dir: crate::ty::Dir) -> (r: crate::value::Value)
        ensures
            r.comm == (crate::value::ValueCommon { ty_id: self.comm.id, dir }),
            r.inner == crate::value::ValueKindInner::IntegerValue(crate::value::IntegerValue {
                comm: crate::value::ValueCommon { ty_id: self.comm.id, dir },
                val: self.spec_default_special_value(),
            }),
    {
        crate::value::Value::from_int(
            crate::value::IntegerValue::new(self.comm.id, dir, self.default_special_value()),
        )
    }

    /// Whether an integer value holds `default_special_value`.
    pub fn is_default(&self, val: &crate::value::Value) -> (r: bool)
        requires
            val.inner is IntegerValue,
        ensures
            r == (val.inner->IntegerValue_0.val == self.spec_default_special_value()),
    {
        match &val.inner {
            crate::value::ValueKindInner::IntegerValue(v) => v.val == self.default_special_value(),
            _ => false,
        }
    }

    pub open spec fn spec_default_special_value(&self) -> u64 {
        0
    }

    /// Value used for default values of this type.
    pub fn default_special_value(&self) -> (r: u64)
        ensures
            r == self.spec_default_special_value(),
    {
        0
    }

    pub fn int_fmt(&self) -> (r: &IntFormat)
        ensures
            *r == self.int_fmt,
    {
        &self.int_fmt
    }
    pub fn len_bit_size(&self) -> (r: u64)
        ensures
            r == self.bit_size,
    {
        self.bit_size
    }
    pub fn offset(&self) -> (r: bool)
        ensures
            r == self.offset,
    {
        self.offset
    }
    pub fn path(&self) -> (r: &[String])
        ensures
            r@ == self.path@,
    {
        self.path.as_slice()
    }
}

#[derive(Debug)]
pub struct LenTypeBuilder {
    pub comm: CommonInfo,
    pub int_fmt: IntFormat,
    pub bit_size: u64,
    pub offset: bool,
    pub path: Vec<String>,
}

impl LenTypeBuilder {
    /// Start building from the common info.
    pub fn new(comm: CommonInfo) -> (r: Self)
        ensures
            r.comm == comm,
            r.int_fmt == IntFormat::spec_default(),
            r.bit_size == 64,
            r.offset == false,
            r.path@.len() == 0,
    {
        Self { comm: comm, int_fmt: IntFormat::new(), bit_size: 64, offset: false, path: Vec::new() }
    }

    pub fn comm(&mut self, comm: CommonInfo) -> (r: &mut Self)
        ensures
            *r == (LenTypeBuilder { comm: comm, ..*old(self) }),
            *final(self) == *final(r),
    {
        self.comm = comm;
        self
    }
    pub fn int_fmt(&mut self, int_fmt: IntFormat) -> (r: &mut Self)
        ensures
            *r == (LenTypeBuilder { int_fmt: int_fmt, ..*old(self) }),
            *final(self) == *final(r),
    {
        self.int_fmt = int_fmt;
        self
    }
    pub fn bit_size(&mut self, bit_size: u64) -> (r: &mut Self)
        ensures
            *r == (LenTypeBuilder { bit_size: bit_size, ..*old(self) }),
            *final(self) == *final(r),
    {
        self.bit_size = bit_size;
        self
    }
    pub fn offset(&mut self, offset: bool) -> (r: &mut Self)
        ensures
            *r == (LenTypeBuilder { offset: offset, ..*old(self) }),
            *final(self) == *final(r),
    {
        self.offset = offset;
        self
    }
    pub fn path(&mut self, path: Vec<String>) -> (r: &mut Self)
        ensures
            *r == (LenTypeBuilder { path: path, ..*old(self) }),
            *final(self) == *final(r),
    {
        self.path = path;
        self
    }

    pub fn build(self) -> (r: LenType)
        ensures
            r == (LenType { comm: self.comm, int_fmt: self.int_fmt, bit_size: self.bit_size, offset: self.offset, path: self.path }),
    {
        LenType { comm: self.comm, int_fmt: self.int_fmt, bit_size: self.bit_size, offset: self.offset, path: self.path }
    }
}

/// Per-process integer values.
#[derive(Debug)]
pub struct ProcType {
    pub comm: CommonInfo,
    pub int_fmt: IntFormat,
    pub values_start: u64,
    pub values_per_proc: u64,
}

impl ProcType {
    pub fn id(&self) -> (r: crate::ty::TypeId)
        ensures
            r == self.comm.id,
    {
        self.comm.id
    }
    pub fn name(&self) -> (r: &str)
        ensures
            r@ == self.comm.name@,
    {
        self.comm.name.as_str()
    }
    pub fn size(&self) -> (r: u64)
        ensures
            r == self.comm.size,
    {
        self.comm.size
    }
    pub fn align(&self) -> (r: u64)
        ensures
            r == self.comm.align,
    {
        self.comm.align
    }
    pub fn optional(&self) -> (r: bool)
        ensures
            r == self.comm.optional,
    {
        self.comm.optional
    }
    pub fn varlen(&self) -> (r: bool)
        ensures
            r == self.comm.varlen,
    {
        self.comm.varlen
    }
    /// Name with any template arguments (from the first `[`) cut off.
    pub fn template_name(&self) -> (r: String)
        ensures
            r@ == crate::strings::prefix_before_bracket(self.comm.name@),
    {
        self.comm.template_name()
    }

    pub fn comm(&self) -> (r: &crate::ty::common::CommonInfo)
        ensures
            *r == self.comm,
    {
        &self.comm
    }
    pub fn format(&self) -> (r: crate::ty::BinaryFormat)
        ensures
            r == self.int_fmt.fmt,
    {
        self.int_fmt.fmt
    }
    pub fn bitfield_off(&self) -> (r: u64)
        ensures
            r == self.int_fmt.bitfield_off,
    {
        self.int_fmt.bitfield_off
    }
    pub fn bitfield_len(&self) -> (r: u64)
        ensures
            r == self.int_fmt.bitfield_len,
    {
        self.int_fmt.bitfield_len
    }
    /// Unit size of a bitfield, or the size of the integer.
    pub fn bitfield_unit(&self) -> (r: u64)
        ensures
            r == (if self.int_fmt.bitfield_len != 0 {
                self.int_fmt.bitfield_unit
            } else {
                self.comm.size
            }),
    {
        if self.int_fmt.bitfield_len != 0 {
            self.int_fmt.bitfield_unit
        } else {
            self.comm.size
        }
    }
    pub fn bitfield_unit_off(&self) -> (r: u64)
        ensures
            r == self.int_fmt.bitfield_unit_off,
    {
        self.int_fmt.bitfield_unit_off
    }
    /// Width in bits: the bitfield length, or the size in bits, or 64 for
    /// textual formats.
    pub fn bit_size(&self) -> (r: u64)
        requires
            crate::ty::integer::bit_size_fits(self.int_fmt, self.comm.size),
        ensures
            r == crate::ty::integer::spec_bit_size(self.int_fmt, self.comm.size),
    {
        crate::ty::integer::int_bit_size(self.int_fmt, self.comm.size)
    }

    pub fn is_bitfield(&self) -> (r: bool)
        ensures
            r == (self.int_fmt.bitfield_len != 0),
    {
        self.int_fmt.bitfield_len != 0
    }

    /// Default value: an integer holding `default_special_value`.
    pub fn default_value(&self, dir: crate::ty::Dir) -> (r: crate::value::Value)
        ensures
            r.comm == (crate::value::ValueCommon { ty_id: self.comm.id, dir }),
            r.inner == crate::value::ValueKindInner::IntegerValue(crate::value::IntegerValue {
                comm: crate::value::ValueCommon { ty_id: self.comm.id, dir },
                val: self.spec_default_special_value(),
            }),
    {
        crate::value::Value::from_int(
            crate::value::IntegerValue::new(self.comm.id, dir, self.default_special_value()),
        )
    }

    /// Whether an integer value holds `default_special_value`.
    pub fn is_default(&self, val: &crate::value::Value) -> (r: bool)
        requires
            val.inner is IntegerValue,
        ensures
            r == (val.inner->IntegerValue_0.val == self.spec_default_special_value()),
    {
        match &val.inner {
            crate::value::ValueKindInner::IntegerValue(v) => v.val == self.default_special_value(),
            _ => false,
        }
    }

    pub open spec fn spec_default_special_value(&self) -> u64 {
        PROC_DEFAULT_VALUE
    }

    /// Value used for default values of this type.
    pub fn default_special_value(&self) -> (r: u64)
        ensures
            r == self.spec_default_special_value(),
    {
        PROC_DEFAULT_VALUE
    }

    pub fn int_fmt(&self) -> (r: &IntFormat)
        ensures
            *r == self.int_fmt,
    {
        &self.int_fmt
    }
    pub fn values_start(&self) -> (r: u64)
        ensures
            r == self.values_start,
    {
        self.values_start
    }
    pub fn values_per_proc(&self) -> (r: u64)
        ensures
            r == self.values_per_proc,
    {
        self.values_per_proc
    }
}

#[derive(Debug)]
pub struct ProcTypeBuilder {
    pub comm: CommonInfo,
    pub int_fmt: IntFormat,
    pub values_start: u64,
    pub values_per_proc: u64,
}

impl ProcTypeBuilder {
    /// Start building from the common info.
    pub fn new(comm: CommonInfo) -> (r: Self)
        ensures
            r.comm == comm,
            r.int_fmt == IntFormat::spec_default(),
            r.values_start == 0,
            r.values_per_proc == 0,
    {
        Self { comm: comm, int_fmt: IntFormat::new(), values_start: 0, values_per_proc: 0 }
    }

    pub fn comm(&mut self, comm: CommonInfo) -> (r: &mut Self)
        ensures
            *r == (ProcTypeBuilder { comm: comm, ..*old(self) }),
            *final(self) == *final(r),
    {
        self.comm = comm;
        self
    }
    pub fn int_fmt(&mut self, int_fmt: IntFormat) -> (r: &mut Self)
        ensures
            *r == (ProcTypeBuilder { int_fmt: int_fmt, ..*old(self) }),
            *final(self) == *final(r),
    {
        self.int_fmt = int_fmt;
        self
    }
    pub fn values_start(&mut self, values_start: u64) -> (r: &mut Self)
        ensures
            *r == (ProcTypeBuilder { values_start: values_start, ..*old(self) }),
            *final(self) == *final(r),
    {
        self.values_start = values_start;
        self
    }
    pub fn values_per_proc(&mut self, values_per_proc: u64) -> (r: &mut Self)
        ensures
            *r == (ProcTypeBuilder { values_per_proc: values_per_proc, ..*old(self) }),
            *final(self) == *final(r),
    {
        self.values_per_proc = values_per_proc;
        self
    }

    pub fn build(self) -> (r: ProcType)
        ensures
            r == (ProcType { comm: self.comm, int_fmt: self.int_fmt, values_start: self.values_start, values_per_proc: self.values_per_proc }),
    {
        ProcType { comm: self.comm, int_fmt: self.int_fmt, values_start: self.values_start, values_per_proc: self.values_per_proc }
    }
}

/// Kind of a checksum.
#[derive(Debug, Clone, Copy, PartialEq, Eq, Structural)]
pub enum CsumKind {
    Inet,
    Pseudo,
}

impl CsumKind {
    /// Kind from its number: 0 is inet, 1 is pseudo.
    pub fn from_u64(kind: u64) -> (r: Self)
        requires
            kind <= 1,
        ensures
            kind == 0 ==> r == CsumKind::Inet,
            kind == 1 ==> r == CsumKind::Pseudo,
    {
        if kind == 0 {
            CsumKind::Inet
        } else {
            CsumKind::Pseudo
        }
    }
}

/// A checksum computed by the executor.
#[derive(Debug)]
pub struct CsumType {
    pub comm: CommonInfo,
    pub int_fmt: IntFormat,
    pub kind: CsumKind,
    pub buf: String,
    pub protocol: u64,
}

impl CsumType {
    pub fn id(&self) -> (r: crate::ty::TypeId)
        ensures
            r == self.comm.id,
    {
        self.comm.id
    }
    pub fn name(&self) -> (r: &str)
        ensures
            r@ == self.comm.name@,
    {
        self.comm.name.as_str()
    }
    pub fn size(&self) -> (r: u64)
        ensures
            r == self.comm.size,
    {
        self.comm.size
    }
    pub fn align(&self) -> (r: u64)
        ensures
            r == self.comm.align,
    {
        self.comm.align
    }
    pub fn optional(&self) -> (r: bool)
        ensures
            r == self.comm.optional,
    {
        self.comm.optional
    }
    pub fn varlen(&self) -> (r: bool)
        ensures
            r == self.comm.varlen,
    {
        self.comm.varlen
    }
    /// Name with any template arguments (from the first `[`) cut off.
    pub fn template_name(&self) -> (r: String)
        ensures
            r@ == crate::strings::prefix_before_bracket(self.comm.name@),
    {
        self.comm.template_name()
    }

    pub fn comm(&self) -> (r: &crate::ty::common::CommonInfo)
        ensures
            *r == self.comm,
    {
        &self.comm
    }
    pub fn format(&self) -> (r: crate::ty::BinaryFormat)
        ensures
            r == self.int_fmt.fmt,
    {
        self.int_fmt.fmt
    }
    pub fn bitfield_off(&self) -> (r: u64)
        ensures
            r == self.int_fmt.bitfield_off,
    {
        self.int_fmt.bitfield_off
    }
    pub fn bitfield_len(&self) -> (r: u64)
        ensures
            r == self.int_fmt.bitfield_len,
    {
        self.int_fmt.bitfield_len
    }
    /// Unit size of a bitfield, or the size of the integer.
    pub fn bitfield_unit(&self) -> (r: u64)
        ensures
            r == (if self.int_fmt.bitfield_len != 0 {
                self.int_fmt.bitfield_unit
            } else {
                self.comm.size
            }),
    {
        if self.int_fmt.bitfield_len != 0 {
            self.int_fmt.bitfield_unit
        } else {
            self.comm.size
        }
    }
    pub fn bitfield_unit_off(&self) -> (r: u64)
        ensures
            r == self.int_fmt.bitfield_unit_off,
    {
        self.int_fmt.bitfield_unit_off
    }
    /// Width in bits: the bitfield length, or the size in bits, or 64 for
    /// textual formats.
    pub fn bit_size(&self) -> (r: u64)
        requires
            crate::ty::integer::bit_size_fits(self.int_fmt, self.comm.size),
        ensures
            r == crate::ty::integer::spec_bit_size(self.int_fmt, self.comm.size),
    {
        crate::ty::integer::int_bit_size(self.int_fmt, self.comm.size)
    }

    pub fn is_bitfield(&self) -> (r: bool)
        ensures
            r == (self.int_fmt.bitfield_len != 0),
    {
        self.int_fmt.bitfield_len != 0
    }

    /// Default value: an integer holding `default_special_value`.
    pub fn default_value(&self, dir: crate::ty::Dir) -> (r: crate::value::Value)
        ensures
            r.comm == (crate::value::ValueCommon { ty_id: self.comm.id, dir }),
            r.inner == crate::value::ValueKindInner::IntegerValue(crate::value::IntegerValue {
                comm: crate::value::ValueCommon { ty_id: self.comm.id, dir },
                val: self.spec_default_special_value(),
            }),
    {
        crate::value::Value::from_int(
            crate::value::IntegerValue::new(self.comm.id, dir, self.default_special_value()),
        )
    }

    /// Whether an integer value holds `default_special_value`.
    pub fn is_default(&self, val: &crate::value::Value) -> (r: bool)
        requires
            val.inner is IntegerValue,
        ensures
            r == (val.inner->IntegerValue_0.val == self.spec_default_special_value()),
    {
        match &val.inner {
            crate::value::ValueKindInner::IntegerValue(v) => v.val == self.default_special_value(),
            _ => false,
        }
    }

    pub open spec fn spec_default_special_value(&self) -> u64 {
        0
    }

    /// Value used for default values of this type.
    pub fn default_special_value(&self) -> (r: u64)
        ensures
            r == self.spec_default_special_value(),
    {
        0
    }

    pub fn int_fmt(&self) -> (r: &IntFormat)
        ensures
            *r == self.int_fmt,
    {
        &self.int_fmt
    }
    pub fn kind(&self) -> (r: CsumKind)
        ensures
            r == self.kind,
    {
        self.kind
    }
    pub fn buf(&self) -> (r: &str)
        ensures
            r@ == self.buf@,
    {
        self.buf.as_str()
    }
    pub fn protocol(&self) -> (r: u64)
        ensures
            r == self.protocol,
    {
        self.protocol
    }
}

#[derive(Debug)]
pub struct CsumTypeBuilder {
    pub comm: CommonInfo,
    pub int_fmt: IntFormat,
    pub kind: CsumKind,
    pub buf: String,
    pub protocol: u64,
}

impl CsumTypeBuilder {
    /// Start building from the common info.
    pub fn new(comm: CommonInfo) -> (r: Self)
        ensures
            r.comm == comm,
            r.int_fmt == IntFormat::spec_default(),
            r.kind == CsumKind::Inet,
            r.buf@ == Seq::<char>::empty(),
            r.protocol == 0,
    {
        Self { comm: comm, int_fmt: IntFormat::new(), kind: CsumKind::Inet, buf: String::new(), protocol: 0 }
    }

    pub fn comm(&mut self, comm: CommonInfo) -> (r: &mut Self)
        ensures
            *r == (CsumTypeBuilder { comm: comm, ..*old(self) }),
            *final(self) == *final(r),
    {
        self.comm = comm;
        self
    }
    pub fn int_fmt(&mut self, int_fmt: IntFormat) -> (r: &mut Self)
        ensures
            *r == (CsumTypeBuilder { int_fmt: int_fmt, ..*old(self) }),
            *final(self) == *final(r),
    {
        self.int_fmt = int_fmt;
        self
    }
    pub fn kind(&mut self, kind: CsumKind) -> (r: &mut Self)
        ensures
            *r == (CsumTypeBuilder { kind: kind, ..*old(self) }),
            *final(self) == *final(r),
    {
        self.kind = kind;
        self
    }
    pub fn buf(&mut self, buf: String) -> (r: &mut Self)
        ensures
            *r == (CsumTypeBuilder { buf: buf, ..*old(self) }),
            *final(self) == *final(r),
    {
        self.buf = buf;
        self
    }
    pub fn protocol(&mut self, protocol: u64) -> (r: &mut Self)
        ensures
            *r == (CsumTypeBuilder { protocol: protocol, ..*old(self) }),
            *final(self) == *final(r),
    {
        self.protocol = protocol;
        self
    }

    pub fn build(self) -> (r: CsumType)
        ensures
            r == (CsumType { comm: self.comm, int_fmt: self.int_fmt, kind: self.kind, buf: self.buf, protocol: self.protocol }),
    {
        CsumType { comm: self.comm, int_fmt: self.int_fmt, kind: self.kind, buf: self.buf, protocol: self.protocol }
    }
}

} // verus!

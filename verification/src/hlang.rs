//! Pieces of the healer spec language: type descriptions and lexing.
pub mod parse;
pub mod value;

use vstd::prelude::*;
use vstd::slice::slice_to_vec;
use vstd::string::StringSliceAdditionalSpecFns;

verus! {

/// How an integer is laid out in memory or in text.
#[derive(Debug, Clone, Copy, PartialEq, Eq, Structural)]
pub enum BinFmt {
    Native,
    BigEndian,
    StrDec,
    StrHex,
    StrOct,
}

/// Integer format: layout and bitfield placement.
#[derive(Debug, Clone, Copy, PartialEq, Eq, Structural)]
pub struct IntFmt {
    pub fmt: BinFmt,
    pub bitfield_off: u64,
    pub bitfield_len: u64,
    pub bitfield_unit: u64,
    pub bitfield_unit_off: u64,
}

/// Kind of a checksum.
#[derive(Debug, Clone, Copy, PartialEq, Eq, Structural)]
pub enum CsumKind {
    Inet,
    Pseudo,
}

/// Kind of machine code in a text buffer.
#[derive(Debug, Clone, Copy, PartialEq, Eq, Structural)]
pub enum TextKind {
    Target,
    X86Real,
    X86bit16,
    X86bit32,
    X86bit64,
    Arm64,
    Ppc64,
}

/// Kind of a buffer.
#[derive(Debug)]
pub enum BufferKind {
    BlobRand,
    BlobRange(u64, u64),
    String { vals: Vec<Vec<u8>>, noz: bool },
    Filename { vals: Vec<Vec<u8>>, noz: bool },
    Text(TextKind),
}

impl BufferKind {
    /// A string buffer that takes one of `vals`.
    pub fn new_str(vals: Vec<&[u8]>, noz: bool) -> (r: Self)
        ensures
            r matches BufferKind::String { vals: v, noz: z } && z == noz && v@.len() == vals@.len() && forall|i: int|
                0 <= i < vals@.len() ==> (#[trigger] v@[i])@ == vals@[i]@,
    {
        let mut out: Vec<Vec<u8>> = Vec::new();
        let mut i: usize = 0;
        while i < vals.len()
            invariant
                i <= vals@.len(),
                out@.len() == i,
                forall|j: int| 0 <= j < i ==> (#[trigger] out@[j])@ == vals@[j]@,
            decreases vals.len() - i,
        {
            out.push(slice_to_vec(vals[i]));
            i = i + 1;
        }
        BufferKind::String { vals: out, noz }
    }

    /// A file name buffer that takes one of `vals`, as bytes.
    pub fn new_fname(vals: Vec<&str>, noz: bool) -> (r: Self)
        ensures
            r matches BufferKind::Filename { vals: v, noz: z } && z == noz && v@.len() == vals@.len() && forall|i: int|
                0 <= i < vals@.len() ==> (#[trigger] v@[i])@ == vals@[i].spec_bytes(),
    {
        let mut out: Vec<Vec<u8>> = Vec::new();
        let mut i: usize = 0;
        while i < vals.len()
            invariant
                i <= vals@.len(),
                out@.len() == i,
                forall|j: int| 0 <= j < i ==> (#[trigger] out@[j])@ == vals@[j].spec_bytes(),
            decreases vals.len() - i,
        {
            out.push(slice_to_vec(vals[i].as_bytes()));
            i = i + 1;
        }
        BufferKind::Filename { vals: out, noz }
    }
}

/// Where the length a length field holds comes from: its bit size, whether
/// it is an offset, and the path to the measured value.
#[derive(Debug)]
pub struct LenInfo {
    pub bit_sz: u64,
    pub offset: bool,
    pub path: Vec<String>,
}

} // verus!

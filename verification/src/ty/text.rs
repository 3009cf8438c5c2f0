//! Text forms of types, close to how the descriptions write them.
use crate::strings::{dec_chars, joined, push_dec, strs_view};
use crate::ty::buffer::{BufferBlobType, BufferFilenameType, BufferStringType};
use crate::ty::group::{ArrayType, Field, StructType, UnionType};
use crate::ty::integer::{ConstType, CsumKind, CsumType, FlagsType, IntType, LenType, ProcType};
use crate::ty::ptr::{PtrType, VmaType};
use crate::ty::res::ResType;
use crate::ty::{Dir, Type};
use vstd::prelude::*;

verus! {

/// `"lo:hi"`.
pub open spec fn range_text(r: (u64, u64)) -> Seq<char> {
    dec_chars(r.0 as nat) + ":"@ + dec_chars(r.1 as nat)
}

/// A direction as `Debug` writes it.
pub open spec fn dir_text(d: Dir) -> Seq<char> {
    match d {
        Dir::In => "In"@,
        Dir::Out => "Out"@,
        Dir::InOut => "InOut"@,
    }
}

/// A checksum kind as `Debug` writes it.
pub open spec fn csum_kind_text(k: CsumKind) -> Seq<char> {
    match k {
        CsumKind::Inet => "Inet"@,
        CsumKind::Pseudo => "Pseudo"@,
    }
}

/// What the length field measures: `offsetof`, `len`, `bytesize` or
/// `bitsize`.
pub open spec fn len_word(t: LenType) -> Seq<char> {
    if t.offset {
        "offsetof"@
    } else if t.bit_size == 0 {
        "len"@
    } else if t.bit_size == 8 {
        "bytesize"@
    } else {
        "bitsize"@
    }
}

/// The text of each field.
pub open spec fn fields_text(fs: Seq<Field>) -> Seq<Seq<char>> {
    Seq::new(fs.len(), |i: int| fs[i].name@ + ": "@ + fs[i].ty.spec_comm().name@)
}

impl Type {
    /// Text of a type, by kind: `resource[name]`, `const[v]`,
    /// `int[lo:hi, align]` (or `int:bits` for a bitfield), `flag[name]`,
    /// `len[path]` and its kin, `proc[n, start]`, `csum[kind]`,
    /// `vma[lo:hi]`, `buffer`/`text`, `string`/`stringnoz`/`glob`,
    /// `filename`, `array[elem, len]`, `ptr[dir, elem id]`,
    /// `struct name {fields}`, `union name {fields}`.
    pub open spec fn spec_text(&self) -> Seq<char>
        decreases self,
    {
        match self {
            Type::Res(t) => "resource["@ + t.name@ + "]"@,
            Type::Const(t) => "const["@ + dec_chars(t.const_val as nat) + "]"@,
            Type::Int(t) => "int"@ + if t.int_fmt.bitfield_len != 0 {
                ":"@ + dec_chars(t.int_fmt.bitfield_len as nat)
            } else {
                match t.range {
                    Some(r) => "["@ + range_text(r) + if t.align != 0 {
                        ", "@ + dec_chars(t.align as nat)
                    } else {
                        Seq::empty()
                    } + "]"@,
                    None => Seq::empty(),
                }
            },
            Type::Flags(t) => "flag["@ + t.comm.name@ + "]"@,
            Type::Len(t) => len_word(*t) + "["@ + joined(strs_view(t.path@), "."@) + "]"@,
            Type::Proc(t) => "proc["@ + dec_chars(t.values_per_proc as nat) + ", "@ + dec_chars(
                t.values_start as nat,
            ) + "]"@,
            Type::Csum(t) => "csum["@ + csum_kind_text(t.kind) + "]"@,
            Type::Vma(t) => "vma"@ + match t.range {
                Some(r) => if r.0 == r.1 {
                    "["@ + dec_chars(r.0 as nat) + "]"@
                } else {
                    "["@ + range_text(r) + "]"@
                },
                None => Seq::empty(),
            },
            Type::BufferBlob(t) => if t.text_kind is Some {
                "text"@
            } else {
                "buffer"@
            },
            Type::BufferString(t) => if t.noz {
                "stringnoz"@
            } else if t.is_glob {
                "glob"@
            } else {
                "string"@
            },
            Type::BufferFilename(_) => "filename"@,
            Type::Array(t) => "array["@ + t.elem.spec_text() + match t.range {
                Some(r) => if r.0 == r.1 {
                    ", "@ + dec_chars(r.0 as nat)
                } else {
                    ", "@ + range_text(r)
                },
                None => Seq::empty(),
            } + "]"@,
            Type::Ptr(t) => "ptr["@ + dir_text(t.dir) + ", "@ + dec_chars(t.elem as nat) + "]"@,
            Type::Struct(t) => "struct "@ + t.comm.name@ + " {"@ + joined(fields_text(t.fields@), ", "@) + "}"@,
            Type::Union(t) => "union "@ + t.comm.name@ + " {"@ + joined(fields_text(t.fields@), ", "@) + "}"@,
        }
    }

    /// The text of the type (see `spec_text`).
    pub fn to_string(&self) -> (r: String)
        ensures
            r@ == self.spec_text(),
        decreases self,
    {
        match self {
            Type::Res(t) => t.to_string(),
            Type::Const(t) => t.to_string(),
            Type::Int(t) => t.to_string(),
            Type::Flags(t) => t.to_string(),
            Type::Len(t) => t.to_string(),
            Type::Proc(t) => t.to_string(),
            Type::Csum(t) => t.to_string(),
            Type::Vma(t) => t.to_string(),
            Type::BufferBlob(t) => t.to_string(),
            Type::BufferString(t) => t.to_string(),
            Type::BufferFilename(t) => t.to_string(),
            Type::Array(t) => {
                proof {
                    assert(decreases_to!(*self => *t.elem));
                }
                let mut s = String::new();
                s.append("array[");
                let e = t.elem.to_string();
                s.append(e.as_str());
                match t.range {
                    Some((lo, hi)) => {
                        s.append(", ");
                        push_dec(&mut s, lo);
                        if lo != hi {
                            s.append(":");
                            push_dec(&mut s, hi);
                        }
                    },
                    None => {},
                }
                s.append("]");
                proof {
                    let ghost m: Seq<char> = match t.range {
                        Some(r) => if r.0 == r.1 {
                            ", "@ + dec_chars(r.0 as nat)
                        } else {
                            ", "@ + range_text(r)
                        },
                        None => Seq::empty(),
                    };
                    assert(s@ =~= "array["@ + t.elem.spec_text() + m + "]"@);
                }
                s
            },
            Type::Ptr(t) => t.to_string(),
            Type::Struct(t) => t.to_string(),
            Type::Union(t) => t.to_string(),
        }
    }
}

fn push_dir(s: &mut String, d: Dir)
    ensures
        final(s)@ == old(s)@ + dir_text(d),
{
    match d {
        Dir::In => s.append("In"),
        Dir::Out => s.append("Out"),
        Dir::InOut => s.append("InOut"),
    }
}

/// Appends the texts of `fs` separated by `", "`.
fn push_fields(s: &mut String, fs: &Vec<Field>)
    ensures
        final(s)@ == old(s)@ + joined(fields_text(fs@), ", "@),
{
    let ghost start = s@;
    let ghost parts = fields_text(fs@);
    let mut i: usize = 0;
    proof {
        assert(parts.take(0) =~= Seq::<Seq<char>>::empty());
        assert(start + Seq::<char>::empty() =~= start);
    }
    while i < fs.len()
        invariant
            i <= fs@.len(),
            parts == fields_text(fs@),
            s@ == start + joined(parts.take(i as int), ", "@),
        decreases fs.len() - i,
    {
        let ghost before = s@;
        if i > 0 {
            s.append(", ");
        }
        s.append(fs[i].name.as_str());
        s.append(": ");
        s.append(fs[i].ty.comm().name.as_str());
        proof {
            let t = parts.take(i + 1);
            assert(t.drop_last() =~= parts.take(i as int));
            assert(t.last() == fs@[i as int].name@ + ": "@ + fs@[i as int].ty.spec_comm().name@);
            if i == 0 {
                assert(s@ =~= start + joined(t, ", "@));
            } else {
                assert(s@ =~= start + joined(t, ", "@));
            }
        }
        i = i + 1;
    }
    proof {
        assert(parts.take(i as int) =~= parts);
    }
}

impl ResType {
    /// `resource[name]`.
    pub fn to_string(&self) -> (r: String)
        ensures
            r@ == Type::Res(*self).spec_text(),
    {
        let mut s = String::new();
        s.append("resource[");
        s.append(self.name.as_str());
        s.append("]");
        proof {
            assert(s@ =~= Type::Res(*self).spec_text());
        }
        s
    }
}

impl ConstType {
    /// `const[value]`.
    pub fn to_string(&self) -> (r: String)
        ensures
            r@ == Type::Const(*self).spec_text(),
    {
        let mut s = String::new();
        s.append("const[");
        push_dec(&mut s, self.const_val);
        s.append("]");
        proof {
            assert(s@ =~= Type::Const(*self).spec_text());
        }
        s
    }
}

impl IntType {
    /// `int`, then `:bits` for a bitfield, or `[lo:hi]` (with `, align`)
    /// for a range.
    pub fn to_string(&self) -> (r: String)
        ensures
            r@ == Type::Int(*self).spec_text(),
    {
        let mut s = String::new();
        s.append("int");
        if self.int_fmt.bitfield_len != 0 {
            s.append(":");
            push_dec(&mut s, self.int_fmt.bitfield_len);
        } else {
            match self.range {
                Some((lo, hi)) => {
                    s.append("[");
                    push_dec(&mut s, lo);
                    s.append(":");
                    push_dec(&mut s, hi);
                    if self.align != 0 {
                        s.append(", ");
                        push_dec(&mut s, self.align);
                    }
                    s.append("]");
                },
                None => {},
            }
        }
        proof {
            assert(s@ =~= Type::Int(*self).spec_text());
        }
        s
    }
}

impl FlagsType {
    /// `flag[name]`.
    pub fn to_string(&self) -> (r: String)
        ensures
            r@ == Type::Flags(*self).spec_text(),
    {
        let mut s = String::new();
        s.append("flag[");
        s.append(self.comm.name.as_str());
        s.append("]");
        proof {
            assert(s@ =~= Type::Flags(*self).spec_text());
        }
        s
    }
}

impl LenType {
    /// `offsetof`, `len`, `bytesize` or `bitsize`, then the path joined by
    /// dots in brackets.
    pub fn to_string(&self) -> (r: String)
        ensures
            r@ == Type::Len(*self).spec_text(),
    {
        let mut s = String::new();
        if self.offset {
            s.append("offsetof");
        } else if self.bit_size == 0 {
            s.append("len");
        } else if self.bit_size == 8 {
            s.append("bytesize");
        } else {
            s.append("bitsize");
        }
        s.append("[");
        let ghost start = s@;
        let ghost parts = strs_view(self.path@);
        let mut i: usize = 0;
        proof {
            assert(parts.take(0) =~= Seq::<Seq<char>>::empty());
            assert(start + Seq::<char>::empty() =~= start);
        }
        while i < self.path.len()
            invariant
                i <= self.path@.len(),
                parts == strs_view(self.path@),
                s@ == start + joined(parts.take(i as int), "."@),
            decreases self.path.len() - i,
        {
            if i > 0 {
                s.append(".");
            }
            s.append(self.path[i].as_str());
            proof {
                let t = parts.take(i + 1);
                assert(t.drop_last() =~= parts.take(i as int));
                assert(s@ =~= start + joined(t, "."@));
            }
            i = i + 1;
        }
        s.append("]");
        proof {
            assert(parts.take(i as int) =~= parts);
            assert(s@ =~= Type::Len(*self).spec_text());
        }
        s
    }
}

impl ProcType {
    /// `proc[values per process, first value]`.
    pub fn to_string(&self) -> (r: String)
        ensures
            r@ == Type::Proc(*self).spec_text(),
    {
        let mut s = String::new();
        s.append("proc[");
        push_dec(&mut s, self.values_per_proc);
        s.append(", ");
        push_dec(&mut s, self.values_start);
        s.append("]");
        proof {
            assert(s@ =~= Type::Proc(*self).spec_text());
        }
        s
    }
}

impl CsumType {
    /// `csum[kind]`.
    pub fn to_string(&self) -> (r: String)
        ensures
            r@ == Type::Csum(*self).spec_text(),
    {
        let mut s = String::new();
        s.append("csum[");
        match self.kind {
            CsumKind::Inet => s.append("Inet"),
            CsumKind::Pseudo => s.append("Pseudo"),
        }
        s.append("]");
        proof {
            assert(s@ =~= Type::Csum(*self).spec_text());
        }
        s
    }
}

impl VmaType {
    /// `vma`, then `[n]` or `[lo:hi]` for a range.
    pub fn to_string(&self) -> (r: String)
        ensures
            r@ == Type::Vma(*self).spec_text(),
    {
        let mut s = String::new();
        s.append("vma");
        match self.range {
            Some((lo, hi)) => {
                s.append("[");
                push_dec(&mut s, lo);
                if lo != hi {
                    s.append(":");
                    push_dec(&mut s, hi);
                }
                s.append("]");
            },
            None => {},
        }
        proof {
            assert(s@ =~= Type::Vma(*self).spec_text());
        }
        s
    }
}

impl BufferBlobType {
    /// `text` for machine code, else `buffer`.
    pub fn to_string(&self) -> (r: String)
        ensures
            r@ == Type::BufferBlob(*self).spec_text(),
    {
        let mut s = String::new();
        if self.text_kind.is_some() {
            s.append("text");
        } else {
            s.append("buffer");
        }
        proof {
            assert(s@ =~= Type::BufferBlob(*self).spec_text());
        }
        s
    }
}

impl BufferStringType {
    /// `stringnoz`, `glob` or `string`.
    pub fn to_string(&self) -> (r: String)
        ensures
            r@ == Type::BufferString(*self).spec_text(),
    {
        let mut s = String::new();
        if self.noz {
            s.append("stringnoz");
        } else if self.is_glob {
            s.append("glob");
        } else {
            s.append("string");
        }
        proof {
            assert(s@ =~= Type::BufferString(*self).spec_text());
        }
        s
    }
}

impl BufferFilenameType {
    /// `filename`.
    pub fn to_string(&self) -> (r: String)
        ensures
            r@ == Type::BufferFilename(*self).spec_text(),
    {
        let mut s = String::new();
        s.append("filename");
        proof {
            assert(s@ =~= Type::BufferFilename(*self).spec_text());
        }
        s
    }
}

impl PtrType {
    /// `ptr[direction, pointee type id]`.
    pub fn to_string(&self) -> (r: String)
        ensures
            r@ == Type::Ptr(*self).spec_text(),
    {
        let mut s = String::new();
        s.append("ptr[");
        push_dir(&mut s, self.dir);
        s.append(", ");
        push_dec(&mut s, self.elem as u64);
        s.append("]");
        proof {
            assert(s@ =~= Type::Ptr(*self).spec_text());
        }
        s
    }
}

impl Field {
    /// `name: type name`.
    pub fn to_string(&self) -> (r: String)
        ensures
            r@ == self.name@ + ": "@ + self.ty.spec_comm().name@,
    {
        let mut s = String::new();
        s.append(self.name.as_str());
        s.append(": ");
        s.append(self.ty.comm().name.as_str());
        proof {
            assert(s@ =~= self.name@ + ": "@ + self.ty.spec_comm().name@);
        }
        s
    }
}

impl StructType {
    /// `struct name {field, field}`.
    pub fn to_string(&self) -> (r: String)
        ensures
            r@ == Type::Struct(*self).spec_text(),
    {
        let mut s = String::new();
        s.append("struct ");
        s.append(self.comm.name.as_str());
        s.append(" {");
        push_fields(&mut s, &self.fields);
        s.append("}");
        proof {
            assert(s@ =~= Type::Struct(*self).spec_text());
        }
        s
    }
}

impl UnionType {
    /// `union name {field, field}`.
    pub fn to_string(&self) -> (r: String)
        ensures
            r@ == Type::Union(*self).spec_text(),
    {
        let mut s = String::new();
        s.append("union ");
        s.append(self.comm.name.as_str());
        s.append(" {");
        push_fields(&mut s, &self.fields);
        s.append("}");
        proof {
            assert(s@ =~= Type::Union(*self).spec_text());
        }
        s
    }
}

impl ArrayType {
    /// `array[element type, length]`, the length `n` or `lo:hi`.
    pub fn to_string(&self) -> (r: String)
        ensures
            r@ == Type::Array(*self).spec_text(),
    {
        let mut s = String::new();
        s.append("array[");
        let e = self.elem.to_string();
        s.append(e.as_str());
        match self.range {
            Some((lo, hi)) => {
                s.append(", ");
                push_dec(&mut s, lo);
                if lo != hi {
                    s.append(":");
                    push_dec(&mut s, hi);
                }
            },
            None => {},
        }
        s.append("]");
        proof {
            let ghost m: Seq<char> = match self.range {
                Some(r) => if r.0 == r.1 {
                    ", "@ + dec_chars(r.0 as nat)
                } else {
                    ", "@ + range_text(r)
                },
                None => Seq::empty(),
            };
            assert(s@ =~= "array["@ + self.elem.spec_text() + m + "]"@);
        }
        s
    }
}

} // verus!

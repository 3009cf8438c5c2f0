//! Building values from the pieces of a program's text form.
//!
//! The text form writes each argument as one of a few value shapes (auto,
//! integer, data, pointer, vma, resource, array, struct, union). Once the text
//! is split into those pieces, the functions here check each piece against the
//! argument's type and build the value, filling what the text left out.
use crate::gen::integer::int_value;
use crate::allocator::MAX_MEM_SIZE;
use crate::mutation::fixup::{call_fix_ok, call_fixed, call_ready, call_values_ok, calls_state, fixup, fixup_start, numbering_ok};
use crate::mutation::res_use::res_tables_ok;
use crate::size::{lookup_ty, ty_with_id};
use crate::target::{has_ty, Target};
use crate::syscall::{Syscall, SyscallId};
use crate::ty::group::Field;
use crate::ty::{Dir, Type, TypeId, TypeKind};
use crate::value::{
    special_addr, DataValue, GroupValue, IntegerValue, PtrValue, ResValue, ResValueId, ResValueKind, UnionValue, Value, ValueCommon, ValueKindInner, VmaValue,
    ENCODING_ADDR_BASE, MAX_SPECIAL_POINTERS,
};
use vstd::prelude::*;

verus! {

/// A `\` escape in readable data is cut short or unknown.
#[derive(Debug, Clone, Copy, PartialEq, Eq, Structural)]
pub struct BadEncodeError;

/// An encoded pointer address lies below the encoding base.
#[derive(Debug, Clone, Copy, PartialEq, Eq, Structural)]
pub struct BadPtrAddrError;

/// A union value names an option the union does not have.
#[derive(Debug, Clone, Copy, PartialEq, Eq, Structural)]
pub struct UnionOptionNotExists;

/// The shape a value is written in.
#[derive(Debug, Clone, Copy, PartialEq, Eq, Structural)]
pub enum ValueShape {
    Auto,
    Int,
    Data,
    Ptr,
    Vma,
    Res,
    Array,
    Struct,
    Union,
}

/// A value written in a shape that its type does not take.
#[derive(Debug, Clone, Copy, PartialEq, Eq, Structural)]
pub struct TypeValueNotMatchError {
    pub shape: ValueShape,
    pub got: TypeKind,
}

/// The backslash that starts an escape.
pub const BACKSLASH: u8 = 92;

/// Value of a hexadecimal digit (either case).
pub open spec fn hex_val(b: u8) -> Option<u8> {
    if 48 <= b <= 57 {
        Some((b - 48) as u8)
    } else if 97 <= b <= 102 {
        Some((b - 87) as u8)
    } else if 65 <= b <= 70 {
        Some((b - 55) as u8)
    } else {
        None
    }
}

/// The byte a one-letter escape stands for: `\a \b \f \n \r \t \v`, and the
/// quotes and the backslash themselves.
pub open spec fn escape_val(c: u8) -> Option<u8> {
    if c == 97 {
        Some(7u8)
    } else if c == 98 {
        Some(8u8)
    } else if c == 102 {
        Some(12u8)
    } else if c == 110 {
        Some(10u8)
    } else if c == 114 {
        Some(13u8)
    } else if c == 116 {
        Some(9u8)
    } else if c == 118 {
        Some(11u8)
    } else if c == 39 || c == 34 || c == 92 {
        Some(c)
    } else {
        None
    }
}

/// `p` in front of the result, if there is one.
pub open spec fn prepend(p: Seq<u8>, o: Option<Seq<u8>>) -> Option<Seq<u8>> {
    match o {
        Some(s) => Some(p + s),
        None => None,
    }
}

/// Readable data with its escapes replaced: `\xHL` by the byte `0xHL`, the
/// one-letter escapes by their bytes; `None` when an escape is cut short or
/// unknown.
pub open spec fn decoded(s: Seq<u8>) -> Option<Seq<u8>>
    decreases s.len(),
{
    if s.len() == 0 {
        Some(Seq::empty())
    } else if s[0] != BACKSLASH {
        prepend(seq![s[0]], decoded(s.skip(1)))
    } else if s.len() < 2 {
        None
    } else if s[1] == 120 {
        if s.len() < 4 {
            None
        } else {
            match (hex_val(s[2]), hex_val(s[3])) {
                (Some(h), Some(l)) => prepend(seq![(h * 16 + l) as u8], decoded(s.skip(4))),
                _ => None,
            }
        }
    } else {
        match escape_val(s[1]) {
            Some(b) => prepend(seq![b], decoded(s.skip(2))),
            None => None,
        }
    }
}

/// The character of a hex digit `d` (below 16), in lower case.
pub open spec fn hex_char(d: u8) -> u8 {
    if d < 10 {
        (48 + d) as u8
    } else {
        (87 + d) as u8
    }
}

/// How a byte is written in readable data: printable ASCII as itself, tab,
/// carriage return, line feed, the quotes and the backslash by their letter
/// escapes, every other byte as `\x` and two lower-case hex digits.
pub open spec fn escape_of(b: u8) -> Seq<u8> {
    if b == 9 {
        seq![BACKSLASH, 116u8]
    } else if b == 13 {
        seq![BACKSLASH, 114u8]
    } else if b == 10 {
        seq![BACKSLASH, 110u8]
    } else if b == 39 || b == 34 || b == 92 {
        seq![BACKSLASH, b]
    } else if 0x20 <= b <= 0x7e {
        seq![b]
    } else {
        seq![BACKSLASH, 120u8, hex_char(b / 16), hex_char(b % 16)]
    }
}

/// Bytes written as readable data, one after the other (see `escape_of`).
pub open spec fn escaped(bs: Seq<u8>) -> Seq<u8>
    decreases bs.len(),
{
    if bs.len() == 0 {
        Seq::empty()
    } else {
        escape_of(bs[0]) + escaped(bs.skip(1))
    }
}

/// Decoding bytes written as readable data gives the bytes back.
pub proof fn lemma_decode_escaped(bs: Seq<u8>)
    ensures
        decoded(escaped(bs)) == Some(bs),
    decreases bs.len(),
{
    if bs.len() > 0 {
        let b = bs[0];
        let e = escape_of(b);
        let rest = escaped(bs.skip(1));
        let s = escaped(bs);
        assert(s == e + rest);
        lemma_decode_escaped(bs.skip(1));
        assert(s.skip(e.len() as int) =~= rest);
        assert(seq![b] + bs.skip(1) =~= bs);
        if e.len() == 4 {
            assert(hex_val(hex_char(b / 16)) == Some((b / 16) as u8));
            assert(hex_val(hex_char(b % 16)) == Some((b % 16) as u8));
            assert(((b / 16) as u8 * 16 + (b % 16) as u8) as u8 == b);
        }
    }
}

proof fn lemma_prepend_assoc(a: Seq<u8>, b: Seq<u8>, o: Option<Seq<u8>>)
    ensures
        prepend(a, prepend(b, o)) == prepend(a + b, o),
{
    if let Some(x) = o {
        assert((a + b) + x =~= a + (b + x));
    }
}

proof fn lemma_decoded_concat(s: Seq<u8>, t: Seq<u8>)
    requires
        decoded(s) is Some,
    ensures
        decoded(s + t) == prepend(decoded(s)->0, decoded(t)),
    decreases s.len(),
{
    if s.len() == 0 {
        assert(s + t =~= t);
        if let Some(x) = decoded(t) {
            assert(Seq::<u8>::empty() + x =~= x);
        }
    } else {
        let st = s + t;
        let k: int = if s[0] != BACKSLASH {
            1
        } else if s[1] == 120 {
            4
        } else {
            2
        };
        assert(st[0] == s[0]);
        if k > 1 {
            assert(st[1] == s[1]);
        }
        if k == 4 {
            assert(st[2] == s[2]);
            assert(st[3] == s[3]);
        }
        assert(st.skip(k) =~= s.skip(k) + t);
        lemma_decoded_concat(s.skip(k), t);
        let h = if k == 1 {
            seq![s[0]]
        } else if k == 4 {
            seq![(hex_val(s[2])->0 * 16 + hex_val(s[3])->0) as u8]
        } else {
            seq![escape_val(s[1])->0]
        };
        assert(decoded(s) == prepend(h, decoded(s.skip(k))));
        assert(decoded(st) == prepend(h, decoded(st.skip(k))));
        lemma_prepend_assoc(h, decoded(s.skip(k))->0, decoded(t));
    }
}

proof fn lemma_escape_in(s: Seq<u8>, t: Seq<u8>, l: u8, b: u8)
    requires
        decoded(s) is Some,
        l != 120,
        escape_val(l) == Some(b),
    ensures
        decoded(s + seq![BACKSLASH, l] + t) == prepend(decoded(s)->0.push(b), decoded(t)),
{
    let e = seq![BACKSLASH, l];
    let et = e + t;
    assert(et[0] == BACKSLASH && et[1] == l);
    assert(et.skip(2) =~= t);
    assert(decoded(et) == prepend(seq![b], decoded(t)));
    assert(s + e + t =~= s + et);
    lemma_decoded_concat(s, et);
    lemma_prepend_assoc(decoded(s)->0, seq![b], decoded(t));
    assert(decoded(s)->0 + seq![b] =~= decoded(s)->0.push(b));
}

/// In readable data, each one-letter escape that follows complete data
/// stands for one byte: `\a \b \t \n \v \f \r` for the control bytes 7,
/// 8, 9, 10, 11, 12 and 13, `\'`, `\"` and `\\` for the quote, the double
/// quote and the backslash; what follows is decoded on its own.
pub proof fn lemma_letter_escapes(s: Seq<u8>, t: Seq<u8>)
    requires
        decoded(s) is Some,
    ensures
        decoded(s + seq![BACKSLASH, 97u8] + t) == prepend(decoded(s)->0.push(7u8), decoded(t)),
        decoded(s + seq![BACKSLASH, 98u8] + t) == prepend(decoded(s)->0.push(8u8), decoded(t)),
        decoded(s + seq![BACKSLASH, 116u8] + t) == prepend(decoded(s)->0.push(9u8), decoded(t)),
        decoded(s + seq![BACKSLASH, 110u8] + t) == prepend(decoded(s)->0.push(10u8), decoded(t)),
        decoded(s + seq![BACKSLASH, 118u8] + t) == prepend(decoded(s)->0.push(11u8), decoded(t)),
        decoded(s + seq![BACKSLASH, 102u8] + t) == prepend(decoded(s)->0.push(12u8), decoded(t)),
        decoded(s + seq![BACKSLASH, 114u8] + t) == prepend(decoded(s)->0.push(13u8), decoded(t)),
        decoded(s + seq![BACKSLASH, 39u8] + t) == prepend(decoded(s)->0.push(39u8), decoded(t)),
        decoded(s + seq![BACKSLASH, 34u8] + t) == prepend(decoded(s)->0.push(34u8), decoded(t)),
        decoded(s + seq![BACKSLASH, 92u8] + t) == prepend(decoded(s)->0.push(92u8), decoded(t)),
{
    lemma_escape_in(s, t, 97, 7);
    lemma_escape_in(s, t, 98, 8);
    lemma_escape_in(s, t, 116, 9);
    lemma_escape_in(s, t, 110, 10);
    lemma_escape_in(s, t, 118, 11);
    lemma_escape_in(s, t, 102, 12);
    lemma_escape_in(s, t, 114, 13);
    lemma_escape_in(s, t, 39, 39);
    lemma_escape_in(s, t, 34, 34);
    lemma_escape_in(s, t, 92, 92);
}

fn hex_digit(b: u8) -> (r: Option<u8>)
    ensures
        r == hex_val(b),
{
    if 48 <= b && b <= 57 {
        Some(b - 48)
    } else if 97 <= b && b <= 102 {
        Some(b - 87)
    } else if 65 <= b && b <= 70 {
        Some(b - 55)
    } else {
        None
    }
}

fn escape_byte(c: u8) -> (r: Option<u8>)
    ensures
        r == escape_val(c),
{
    if c == 97 {
        Some(7)
    } else if c == 98 {
        Some(8)
    } else if c == 102 {
        Some(12)
    } else if c == 110 {
        Some(10)
    } else if c == 114 {
        Some(13)
    } else if c == 116 {
        Some(9)
    } else if c == 118 {
        Some(11)
    } else if c == 39 || c == 34 || c == 92 {
        Some(c)
    } else {
        None
    }
}

/// Decodes readable data (see `decoded`).
pub fn decode_readable_data(data: &[u8]) -> (r: Result<Vec<u8>, BadEncodeError>)
    ensures
        match decoded(data@) {
            Some(v) => r is Ok && r->Ok_0@ == v,
            None => r is Err,
        },
{
    let mut out: Vec<u8> = Vec::new();
    let mut i: usize = 0;
    proof {
        assert(data@.skip(0) =~= data@);
        assert(Seq::<u8>::empty() + data@ =~= data@);
        lemma_prepend_assoc(Seq::empty(), Seq::empty(), decoded(data@));
        if let Some(x) = decoded(data@) {
            assert(Seq::<u8>::empty() + x =~= x);
        }
    }
    while i < data.len()
        invariant
            i <= data@.len(),
            decoded(data@) == prepend(out@, decoded(data@.skip(i as int))),
        decreases data@.len() - i,
    {
        let ghost s = data@.skip(i as int);
        let v = data[i];
        let b: u8;
        let step: usize;
        if v != BACKSLASH {
            b = v;
            step = 1;
        } else {
            if i + 1 >= data.len() {
                return Err(BadEncodeError);
            }
            let c = data[i + 1];
            if c == 120 {
                if data.len() - i < 4 {
                    return Err(BadEncodeError);
                }
                let h = hex_digit(data[i + 2]);
                let l = hex_digit(data[i + 3]);
                match (h, l) {
                    (Some(h), Some(l)) => {
                        b = h * 16 + l;
                        step = 4;
                    },
                    _ => {
                        return Err(BadEncodeError);
                    },
                }
            } else {
                match escape_byte(c) {
                    Some(e) => {
                        b = e;
                        step = 2;
                    },
                    None => {
                        return Err(BadEncodeError);
                    },
                }
            }
        }
        proof {
            assert(s.skip(step as int) =~= data@.skip(i + step));
            assert(decoded(s) == prepend(seq![b], decoded(data@.skip(i + step))));
            lemma_prepend_assoc(out@, seq![b], decoded(data@.skip(i + step)));
            assert(out@ + seq![b] =~= out@.push(b));
        }
        out.push(b);
        i = i + step;
    }
    proof {
        assert(data@.skip(i as int) =~= Seq::<u8>::empty());
        assert(out@ + Seq::<u8>::empty() =~= out@);
    }
    Ok(out)
}

/// Decodes an encoded pointer address: its offset from the encoding base.
pub fn parse_addr(raw: u64) -> (r: Result<u64, BadPtrAddrError>)
    ensures
        raw < ENCODING_ADDR_BASE ==> r is Err,
        raw >= ENCODING_ADDR_BASE ==> r == Ok::<u64, BadPtrAddrError>((raw - ENCODING_ADDR_BASE) as u64),
{
    if raw < ENCODING_ADDR_BASE {
        Err(BadPtrAddrError)
    } else {
        Ok(raw - ENCODING_ADDR_BASE)
    }
}

/// The value of a common part.
pub open spec fn comm_of(ty: Type, dir: Dir) -> ValueCommon {
    ValueCommon { ty_id: ty.spec_comm().id, dir }
}

/// A resource value of type `ty`.
pub open spec fn res_value(ty: Type, dir: Dir, kind: ResValueKind, val: u64, op_div: u64, op_add: u64) -> Value {
    let c = comm_of(ty, dir);
    Value { comm: c, inner: ValueKindInner::ResValue(ResValue { comm: c, kind, val, op_div, op_add }) }
}

/// The `index`-th special pointer of type `ty`.
pub open spec fn special_ptr_value(ty: Type, dir: Dir, index: u64) -> Value {
    let c = comm_of(ty, dir);
    Value { comm: c, inner: ValueKindInner::PtrValue(PtrValue { comm: c, addr: special_addr(index), pointee: None }) }
}

/// A vma value of type `ty`.
pub open spec fn vma_value(ty: Type, dir: Dir, addr: u64, size: u64) -> Value {
    let c = comm_of(ty, dir);
    Value { comm: c, inner: ValueKindInner::VmaValue(VmaValue { comm: c, addr, vma_size: size }) }
}

/// A value left for the library to fill: lengths and checksums start at 0,
/// constants take their value; other types do not take this shape.
pub fn convert_auto(ty: &Type, dir: Dir) -> (r: Result<Value, TypeValueNotMatchError>)
    ensures
        (ty is Len || ty is Csum) ==> r == Ok::<Value, TypeValueNotMatchError>(int_value(*ty, dir, 0)),
        ty is Const ==> r == Ok::<Value, TypeValueNotMatchError>(int_value(*ty, dir, ty->Const_0.const_val)),
        !(ty is Len || ty is Csum || ty is Const) ==> r == Err::<Value, TypeValueNotMatchError>(
            TypeValueNotMatchError { shape: ValueShape::Auto, got: ty.spec_kind() },
        ),
{
    let k = ty.kind();
    if k == TypeKind::Len || k == TypeKind::Csum {
        Ok(Value::from_int(IntegerValue::new(ty.id(), dir, 0)))
    } else if let Some(c) = ty.as_const() {
        Ok(Value::from_int(IntegerValue::new(ty.id(), dir, c.const_val)))
    } else {
        Err(TypeValueNotMatchError { shape: ValueShape::Auto, got: k })
    }
}

/// Index of the special pointer written as the integer `num`: `-num`
/// wrapped to 64 bits, modulo the number of special pointers.
pub open spec fn special_index(num: u64, n: nat) -> u64 {
    ((0u64.wrapping_sub(num)) as nat % n) as u64
}

/// A value written as an integer: a null resource for a resource type, the
/// number itself for integer-like types, and for a vma or a pointer the
/// special one that `-num` selects; other types do not take this shape.
pub fn convert_int(target: &Target, ty: &Type, dir: Dir, num: u64) -> (r: Result<Value, TypeValueNotMatchError>)
    requires
        (ty is Vma || ty is Ptr) ==> 0 < target.special_ptrs@.len() <= MAX_SPECIAL_POINTERS,
    ensures
        ty is Res ==> r == Ok::<Value, TypeValueNotMatchError>(res_value(*ty, dir, ResValueKind::Null, num, 0, 0)),
        (ty is Const || ty is Int || ty is Flags || ty is Len || ty is Proc || ty is Csum) ==> r == Ok::<
            Value,
            TypeValueNotMatchError,
        >(int_value(*ty, dir, num)),
        ty is Vma ==> r == Ok::<Value, TypeValueNotMatchError>(
            vma_value(*ty, dir, special_addr(special_index(num, target.special_ptrs@.len())), 0),
        ),
        ty is Ptr ==> r == Ok::<Value, TypeValueNotMatchError>(
            special_ptr_value(*ty, dir, special_index(num, target.special_ptrs@.len())),
        ),
        (ty is BufferBlob || ty is BufferString || ty is BufferFilename || ty is Array || ty is Struct
            || ty is Union) ==> r == Err::<Value, TypeValueNotMatchError>(
            TypeValueNotMatchError { shape: ValueShape::Int, got: ty.spec_kind() },
        ),
{
    let k = ty.kind();
    match k {
        TypeKind::Res => Ok(Value::from_res(ResValue::new_null(ty.id(), dir, num))),
        TypeKind::Const | TypeKind::Int | TypeKind::Flags | TypeKind::Len | TypeKind::Proc | TypeKind::Csum => {
            Ok(Value::from_int(IntegerValue::new(ty.id(), dir, num)))
        },
        TypeKind::Vma => {
            let index = 0u64.wrapping_sub(num) % (target.special_ptrs.len() as u64);
            Ok(Value::from_vma(VmaValue::new_special(ty.id(), dir, index)))
        },
        TypeKind::Ptr => {
            let index = 0u64.wrapping_sub(num) % (target.special_ptrs.len() as u64);
            Ok(Value::from_ptr(PtrValue::new_special(ty.id(), dir, index)))
        },
        _ => Err(TypeValueNotMatchError { shape: ValueShape::Int, got: k }),
    }
}

/// Address and size of a vma: both rounded down to the page size, a zero
/// size made one page, the size cut to the whole memory and the address
/// moved down so that the area fits in it.
pub open spec fn vma_area(page_sz: u64, page_num: u64, addr: u64, size: u64) -> (u64, u64) {
    let max_mem = (page_sz * page_num) as u64;
    let a = (addr - addr % page_sz) as u64;
    let s0 = (size - size % page_sz) as u64;
    let s1 = if s0 == 0 { page_sz } else { s0 };
    let s2 = if s1 > max_mem { max_mem } else { s1 };
    let a2 = if a > max_mem - s2 { (max_mem - s2) as u64 } else { a };
    (a2, s2)
}

proof fn lemma_round_down_multiple(x: int, m: int)
    requires
        m > 0,
        x >= 0,
    ensures
        (x - x % m) % m == 0,
        0 <= x % m <= x,
{
    vstd::arithmetic::div_mod::lemma_fundamental_div_mod(x, m);
    vstd::arithmetic::div_mod::lemma_mod_bound(x, m);
    assert(x - x % m == (x / m) * m) by (nonlinear_arith)
        requires
            x == m * (x / m) + x % m,
    ;
    vstd::arithmetic::div_mod::lemma_mod_multiples_basic(x / m, m);
}

proof fn lemma_mul_is_multiple(k: int, m: int)
    requires
        m > 0,
    ensures
        (m * k) % m == 0,
{
    assert(m * k == k * m) by (nonlinear_arith);
    vstd::arithmetic::div_mod::lemma_mod_multiples_basic(k, m);
}

proof fn lemma_sub_multiple(x: int, y: int, m: int)
    requires
        m > 0,
        x % m == 0,
        y % m == 0,
    ensures
        (x - y) % m == 0,
{
    vstd::arithmetic::div_mod::lemma_fundamental_div_mod(x, m);
    vstd::arithmetic::div_mod::lemma_fundamental_div_mod(y, m);
    assert(x - y == (x / m - y / m) * m) by (nonlinear_arith)
        requires
            x == m * (x / m) + x % m,
            y == m * (y / m) + y % m,
            x % m == 0,
            y % m == 0,
    ;
    vstd::arithmetic::div_mod::lemma_mod_multiples_basic(x / m - y / m, m);
}

proof fn lemma_multiple_trans(x: int, m: int, k: int)
    requires
        m > 0,
        k > 0,
        x % m == 0,
        m % k == 0,
    ensures
        x % k == 0,
{
    vstd::arithmetic::div_mod::lemma_fundamental_div_mod(x, m);
    vstd::arithmetic::div_mod::lemma_fundamental_div_mod(m, k);
    assert(x == ((x / m) * (m / k)) * k) by (nonlinear_arith)
        requires
            x == m * (x / m) + x % m,
            m == k * (m / k) + m % k,
            x % m == 0,
            m % k == 0,
    ;
    vstd::arithmetic::div_mod::lemma_mod_multiples_basic((x / m) * (m / k), k);
}

/// A value written as a vma area (see `vma_area`); other types do not take
/// this shape.
pub fn convert_vma(target: &Target, ty: &Type, dir: Dir, addr: u64, size: u64) -> (r: Result<
    Value,
    TypeValueNotMatchError,
>)
    requires
        ty is Vma ==> {
            &&& target.page_sz > 0
            &&& target.page_sz % 1024 == 0
            &&& target.page_sz * target.page_num <= u64::MAX
            &&& target.page_num > 0
        },
    ensures
        ty is Vma ==> r == Ok::<Value, TypeValueNotMatchError>(
            {
                let (a, s) = vma_area(target.page_sz, target.page_num, addr, size);
                vma_value(*ty, dir, a, s)
            },
        ),
        !(ty is Vma) ==> r == Err::<Value, TypeValueNotMatchError>(
            TypeValueNotMatchError { shape: ValueShape::Vma, got: ty.spec_kind() },
        ),
{
    let k = ty.kind();
    if k != TypeKind::Vma {
        return Err(TypeValueNotMatchError { shape: ValueShape::Vma, got: k });
    }
    let page_sz = target.page_sz;
    let a0 = addr;
    let s0 = size;
    proof {
        lemma_round_down_multiple(a0 as int, page_sz as int);
        lemma_round_down_multiple(s0 as int, page_sz as int);
    }
    let mut addr = addr - addr % page_sz;
    let mut size = size - size % page_sz;
    if size == 0 {
        size = page_sz;
    }
    let max_mem = page_sz * target.page_num;
    proof {
        assert(page_sz <= max_mem) by (nonlinear_arith)
            requires
                max_mem == page_sz * target.page_num,
                target.page_num > 0,
                page_sz > 0,
        ;
    }
    if size > max_mem {
        size = max_mem;
    }
    if addr > max_mem - size {
        addr = max_mem - size;
    }
    proof {
        let ps = page_sz as int;
        lemma_round_down_multiple(a0 as int, ps);
        lemma_round_down_multiple(s0 as int, ps);
        lemma_mul_is_multiple(target.page_num as int, ps);
        if addr != (a0 - a0 % page_sz) as u64 {
            lemma_sub_multiple(max_mem as int, size as int, ps);
        }
        lemma_multiple_trans(addr as int, ps, 1024);
    }
    Ok(Value::from_vma(VmaValue::new(ty.id(), dir, addr, size)))
}


/// Decoding of a hex string: two digits per byte, high digit first; `None`
/// for an odd length or a non-hex character.
pub open spec fn hex_decoded(s: Seq<u8>) -> Option<Seq<u8>> {
    if s.len() % 2 != 0 || exists|i: int| 0 <= i < s.len() && (#[trigger] hex_val(s[i])) is None {
        None
    } else {
        Some(Seq::new(s.len() / 2, |i: int| (hex_val(s[2 * i])->0 * 16 + hex_val(s[2 * i + 1])->0) as u8))
    }
}

/// The error type of `hex::decode`.
#[verifier::external_type_specification]
#[verifier::external_body]
pub struct ExFromHexError(hex::FromHexError);

/// `hex::decode`: an even number of hex digits (either case) becomes one byte
/// per pair, high digit first; an odd length or any other character is an
/// error (which error is not stated).
#[verifier::external_body]
fn hex_decode(data: &[u8]) -> (r: Result<Vec<u8>, hex::FromHexError>)
    ensures
        match hex_decoded(data@) {
            Some(v) => r is Ok && r->Ok_0@ == v,
            None => r is Err,
        },
{
    hex::decode(data)
}

/// What went wrong turning a program's text into calls.
#[derive(Debug, Clone, Copy, PartialEq, Eq, Structural)]
pub enum ParseErrorKind {
    NoCalls,
    CallNotExists,
    PrototypeNotMatch,
    TypeValueNotMatch(TypeValueNotMatchError),
    BadEncode,
    BadHex,
    BadPtrAddr,
    UnionOptionNotExists,
    /// A value cannot be placed: its type is not one of the target's, or a
    /// pointee does not fit in the target's memory.
    NoRoom,
}

/// Data as written: readable (with escapes) or as hex digits.
pub enum DataNode {
    Readable(Vec<u8>),
    NonReadable(Vec<u8>),
}

/// A pointer's address as written: an encoded address, or left to the
/// library.
pub enum AddrNode {
    Int(u64),
    Auto,
}

/// What a pointer points to, as written.
pub enum PointeeNode {
    Nil,
    Value(Box<ValueNode>),
}

/// A resource as written: one a call produces (with its value), or a use of
/// one (with the divisor and addend applied to it).
pub enum ResNode {
    Out { id: ResValueId, val: Option<u64> },
    In { id: ResValueId, op_div: Option<u64>, op_add: Option<u64> },
}

/// A value as written in a program's text.
pub enum ValueNode {
    Auto,
    Int(u64),
    /// The data and the size written after it, if any.
    Data(DataNode, Option<u64>),
    /// The address and the pointee; `None` when no pointee is written.
    Ptr(AddrNode, Option<PointeeNode>),
    /// Encoded address and size.
    Vma(u64, u64),
    Res(ResNode),
    Array(Vec<ValueNode>),
    Struct(Vec<ValueNode>),
    /// The option's name and its value, if written.
    Union(String, Option<Box<ValueNode>>),
}

impl ValueNode {
    pub open spec fn spec_shape(&self) -> ValueShape {
        match self {
            ValueNode::Auto => ValueShape::Auto,
            ValueNode::Int(_) => ValueShape::Int,
            ValueNode::Data(..) => ValueShape::Data,
            ValueNode::Ptr(..) => ValueShape::Ptr,
            ValueNode::Vma(..) => ValueShape::Vma,
            ValueNode::Res(_) => ValueShape::Res,
            ValueNode::Array(_) => ValueShape::Array,
            ValueNode::Struct(_) => ValueShape::Struct,
            ValueNode::Union(..) => ValueShape::Union,
        }
    }

    /// The shape the value is written in.
    pub fn shape(&self) -> (r: ValueShape)
        ensures
            r == self.spec_shape(),
    {
        match self {
            ValueNode::Auto => ValueShape::Auto,
            ValueNode::Int(_) => ValueShape::Int,
            ValueNode::Data(..) => ValueShape::Data,
            ValueNode::Ptr(..) => ValueShape::Ptr,
            ValueNode::Vma(..) => ValueShape::Vma,
            ValueNode::Res(_) => ValueShape::Res,
            ValueNode::Array(_) => ValueShape::Array,
            ValueNode::Struct(_) => ValueShape::Struct,
            ValueNode::Union(..) => ValueShape::Union,
        }
    }
}

/// Every type reachable from `ty` without following pointers has a default
/// value, and every pointer in it points to one of `tys`.
pub open spec fn convertible(ty: Type, tys: Seq<Type>) -> bool
    decreases ty,
{
    &&& ty.default_ok()
    &&& match ty {
        Type::Ptr(t) => has_ty(tys, t.elem),
        Type::Array(t) => convertible(*t.elem, tys) && (t.range matches Some((lo, _)) ==> lo <= usize::MAX),
        Type::Struct(t) => forall|i: int| 0 <= i < t.fields@.len() ==> convertible(*(#[trigger] t.fields@[i]).ty, tys),
        Type::Union(t) => forall|i: int| 0 <= i < t.fields@.len() ==> convertible(*(#[trigger] t.fields@[i]).ty, tys),
        _ => true,
    }
}

/// What converting values needs of a target: its types convertible, 1 to
/// `MAX_SPECIAL_POINTERS` special pointers, and a memory of whole pages of a
/// multiple of 1024 bytes whose size fits in 64 bits.
pub open spec fn parse_ready(target: Target) -> bool {
    &&& target.wf()
    &&& forall|j: int| 0 <= j < target.tys@.len() ==> convertible(#[trigger] target.tys@[j], target.tys@)
    &&& forall|c: int, p: int|
        0 <= c < target.all_syscalls@.len() && 0 <= p < target.all_syscalls@[c].params@.len() ==> convertible(
            *(#[trigger] target.all_syscalls@[c].params@[p]).ty,
            target.tys@,
        )
    &&& 0 < target.special_ptrs@.len() <= MAX_SPECIAL_POINTERS
    &&& target.page_sz > 0
    &&& target.page_sz % 1024 == 0
    &&& target.page_num > 0
    &&& target.page_sz * target.page_num <= u64::MAX
}

/// The bytes data stands for, if it decodes.
pub open spec fn data_bytes(d: DataNode) -> Option<Seq<u8>> {
    match d {
        DataNode::Readable(b) => decoded(b@),
        DataNode::NonReadable(b) => hex_decoded(b@),
    }
}

/// The error of data that does not decode.
pub open spec fn data_error(d: DataNode) -> ParseErrorKind {
    match d {
        DataNode::Readable(_) => ParseErrorKind::BadEncode,
        DataNode::NonReadable(_) => ParseErrorKind::BadHex,
    }
}

/// The direction of a field inside a group of direction `dir`.
pub open spec fn field_dir(f: Field, dir: Dir) -> Dir {
    match f.dir {
        Some(d) => d,
        None => dir,
    }
}

/// A padding constant.
pub open spec fn is_pad(ty: Type) -> bool {
    ty matches Type::Const(c) && c.pad
}

/// Number of fields before `i` that are not padding: the fields a struct's
/// written values go to, in order.
pub open spec fn nonpad_before(fields: Seq<Field>, i: int) -> nat
    decreases i,
{
    if i <= 0 {
        0
    } else {
        nonpad_before(fields, i - 1) + if is_pad(*fields[i - 1].ty) {
            0nat
        } else {
            1nat
        }
    }
}

/// Index of the first field named `name`.
pub open spec fn option_index(fields: Seq<Field>, name: Seq<char>) -> Option<int>
    decreases fields.len(),
{
    if fields.len() == 0 {
        None
    } else {
        match option_index(fields.drop_last(), name) {
            Some(i) => Some(i),
            None => if fields.last().name@ == name {
                Some(fields.len() - 1)
            } else {
                None
            },
        }
    }
}

/// Types that take a value written as an integer.
pub open spec fn takes_int(ty: Type) -> bool {
    !(ty is BufferBlob || ty is BufferString || ty is BufferFilename || ty is Array || ty is Struct || ty is Union)
}

/// Buffer types.
pub open spec fn is_buffer(ty: Type) -> bool {
    ty is BufferBlob || ty is BufferString || ty is BufferFilename
}

/// The error converting `node` as a value of `ty` gives, if any; errors
/// inside groups are found in order.
pub open spec fn value_error(tys: Seq<Type>, ty: Type, dir: Dir, node: ValueNode) -> Option<ParseErrorKind>
    decreases node, 1nat,
{
    let mismatch = Some(
        ParseErrorKind::TypeValueNotMatch(TypeValueNotMatchError { shape: node.spec_shape(), got: ty.spec_kind() }),
    );
    match node {
        ValueNode::Auto => if ty is Len || ty is Csum || ty is Const {
            None
        } else {
            mismatch
        },
        ValueNode::Int(_) => if takes_int(ty) {
            None
        } else {
            mismatch
        },
        ValueNode::Data(d, _) => if !is_buffer(ty) {
            mismatch
        } else if data_bytes(d) is None {
            Some(data_error(d))
        } else {
            None
        },
        ValueNode::Ptr(a, p) => if !(ty is Ptr) {
            mismatch
        } else if a matches AddrNode::Int(x) && x < ENCODING_ADDR_BASE {
            Some(ParseErrorKind::BadPtrAddr)
        } else {
            match p {
                Some(PointeeNode::Value(b)) => value_error(tys, ty_with_id(tys, ty->Ptr_0.elem), ty->Ptr_0.dir, *b),
                _ => None,
            }
        },
        ValueNode::Vma(a, _) => if !(ty is Vma) {
            mismatch
        } else if a < ENCODING_ADDR_BASE {
            Some(ParseErrorKind::BadPtrAddr)
        } else {
            None
        },
        ValueNode::Res(_) => if ty is Res {
            None
        } else {
            mismatch
        },
        ValueNode::Array(elems) => if !(ty is Array) {
            mismatch
        } else {
            elems_error(tys, *ty->Array_0.elem, dir, elems@)
        },
        ValueNode::Struct(ch) => if !(ty is Struct) {
            mismatch
        } else {
            let fs = ty->Struct_0.fields@;
            match fields_error(tys, fs, dir, ch@, fs.len()) {
                Some(e) => Some(e),
                None => if ch@.len() > nonpad_before(fs, fs.len() as int) {
                    Some(
                        ParseErrorKind::TypeValueNotMatch(
                            TypeValueNotMatchError {
                                shape: ch@[nonpad_before(fs, fs.len() as int) as int].spec_shape(),
                                got: TypeKind::Struct,
                            },
                        ),
                    )
                } else {
                    None
                },
            }
        },
        ValueNode::Union(name, v) => if !(ty is Union) {
            mismatch
        } else {
            let fs = ty->Union_0.fields@;
            match option_index(fs, name@) {
                None => Some(ParseErrorKind::UnionOptionNotExists),
                Some(i) => match v {
                    Some(b) => if 0 <= i < fs.len() {
                        value_error(tys, *fs[i].ty, field_dir(fs[i], dir), *b)
                    } else {
                        None
                    },
                    None => None,
                },
            }
        },
    }
}

/// The first error among elements all of type `ety`.
pub open spec fn elems_error(tys: Seq<Type>, ety: Type, dir: Dir, s: Seq<ValueNode>) -> Option<ParseErrorKind>
    decreases s, 0nat,
{
    if s.len() == 0 {
        None
    } else {
        match elems_error(tys, ety, dir, s.drop_last()) {
            Some(e) => Some(e),
            None => value_error(tys, ety, dir, s.last()),
        }
    }
}

/// The first error among the values written for the first `i` fields.
pub open spec fn fields_error(tys: Seq<Type>, fs: Seq<Field>, dir: Dir, ch: Seq<ValueNode>, i: nat) -> Option<
    ParseErrorKind,
>
    decreases ch, i,
{
    if i == 0 || i > fs.len() {
        None
    } else {
        match fields_error(tys, fs, dir, ch, (i - 1) as nat) {
            Some(e) => Some(e),
            None => {
                let f = fs[i - 1];
                let k = nonpad_before(fs, i - 1);
                if !is_pad(*f.ty) && k < ch.len() {
                    value_error(tys, *f.ty, field_dir(f, dir), ch[k as int])
                } else {
                    None
                }
            },
        }
    }
}

/// `s` padded with zero bytes up to `n` bytes.
pub open spec fn padded(s: Seq<u8>, n: nat) -> Seq<u8> {
    if s.len() < n {
        s + Seq::new((n - s.len()) as nat, |i: int| 0u8)
    } else {
        s
    }
}

/// `v` is the value `node` stands for as a value of `ty` (when it has no
/// error): see the `convert_*` functions for each shape.
pub open spec fn value_of(target: Target, ty: Type, dir: Dir, node: ValueNode, v: Value) -> bool
    decreases node, 1nat,
{
    let tys = target.tys@;
    let c = comm_of(ty, dir);
    match node {
        ValueNode::Auto => v == int_value(
            ty,
            dir,
            if ty is Const {
                ty->Const_0.const_val
            } else {
                0
            },
        ),
        ValueNode::Int(n) => if ty is Res {
            v == res_value(ty, dir, ResValueKind::Null, n, 0, 0)
        } else if ty is Vma {
            v == vma_value(ty, dir, special_addr(special_index(n, target.special_ptrs@.len())), 0)
        } else if ty is Ptr {
            v == special_ptr_value(ty, dir, special_index(n, target.special_ptrs@.len()))
        } else {
            v == int_value(ty, dir, n)
        },
        ValueNode::Data(d, sz) => {
            let bytes = data_bytes(d)->0;
            let size: nat = match sz {
                Some(s) => s as nat,
                None => if ty.spec_comm().varlen {
                    bytes.len()
                } else {
                    ty.spec_comm().size as nat
                },
            };
            &&& v.comm == c
            &&& v.inner matches ValueKindInner::DataValue(dv)
            &&& dv.comm == c
            &&& if dir == Dir::Out {
                dv.data@.len() == 0 && dv.size == size
            } else {
                dv.data@ == padded(bytes, size) && dv.size == 0
            }
        },
        ValueNode::Ptr(a, p) => {
            let addr: u64 = match a {
                AddrNode::Int(x) => (x - ENCODING_ADDR_BASE) as u64,
                AddrNode::Auto => 0,
            };
            let pt = ty->Ptr_0;
            let ety = ty_with_id(tys, pt.elem);
            &&& v.comm == c
            &&& v.inner matches ValueKindInner::PtrValue(pv)
            &&& pv.comm == c
            &&& pv.addr == addr
            &&& match p {
                None => pv.pointee matches Some(b) && ety.is_default_of(pt.dir, *b),
                Some(PointeeNode::Nil) => pv.pointee is None,
                Some(PointeeNode::Value(n)) => pv.pointee matches Some(b) && value_of(target, ety, pt.dir, *n, *b),
            }
        },
        ValueNode::Vma(a, s) => {
            let (addr, size) = vma_area(target.page_sz, target.page_num, (a - ENCODING_ADDR_BASE) as u64, s);
            v == vma_value(ty, dir, addr, size)
        },
        ValueNode::Res(r) => v == res_node_value(ty, dir, r),
        ValueNode::Array(elems) => {
            let at = ty->Array_0;
            let e = elems@;
            let n: nat = match at.range {
                Some((s, t)) => if s == t {
                    s as nat
                } else {
                    e.len()
                },
                None => e.len(),
            };
            &&& v.comm == c
            &&& v.inner matches ValueKindInner::GroupValue(g)
            &&& g.comm == c
            &&& g.inner@.len() == n
            &&& forall|i: int|
                0 <= i < n ==> if i < e.len() {
                    value_of(target, *at.elem, dir, e[i], #[trigger] g.inner@[i])
                } else {
                    at.elem.is_default_of(dir, g.inner@[i])
                }
        },
        ValueNode::Struct(ch) => {
            let fs = ty->Struct_0.fields@;
            let n = ch@.len();
            &&& v.comm == c
            &&& v.inner matches ValueKindInner::GroupValue(g)
            &&& g.comm == c
            &&& g.inner@.len() == fs.len()
            &&& forall|i: int|
                0 <= i < fs.len() ==> {
                    let f = fs[i];
                    let k = nonpad_before(fs, i);
                    if is_pad(*f.ty) && k <= n {
                        #[trigger] g.inner@[i] == int_value(*f.ty, field_dir(f, dir), 0)
                    } else if !is_pad(*f.ty) && k < n {
                        value_of(target, *f.ty, field_dir(f, dir), ch@[k as int], g.inner@[i])
                    } else {
                        f.ty.is_default_of(field_dir(f, dir), g.inner@[i])
                    }
                }
        },
        ValueNode::Union(name, val) => {
            let fs = ty->Union_0.fields@;
            let i = option_index(fs, name@)->0;
            &&& v.comm == c
            &&& v.inner matches ValueKindInner::UnionValue(u)
            &&& u.comm == c
            &&& u.index == i
            &&& 0 <= i < fs.len()
            &&& match val {
                Some(b) => value_of(target, *fs[i].ty, field_dir(fs[i], dir), *b, *u.option),
                None => fs[i].ty.is_default_of(field_dir(fs[i], dir), *u.option),
            }
        },
    }
}

/// The value a resource stands for (see `convert_res`).
pub open spec fn res_node_value(ty: Type, dir: Dir, r: ResNode) -> Value {
    match r {
        ResNode::Out { id, val } => res_value(
            ty,
            Dir::Out,
            ResValueKind::Own(id),
            match val {
                Some(x) => x,
                None => 0,
            },
            0,
            0,
        ),
        ResNode::In { id, op_div, op_add } => res_value(
            ty,
            dir,
            ResValueKind::Ref(id),
            0,
            match op_div {
                Some(x) => x,
                None => 0,
            },
            match op_add {
                Some(x) => x,
                None => 0,
            },
        ),
    }
}

/// `r` is what converting `node` as a value of `ty` gives: its error, or a
/// value it stands for.
pub open spec fn converted(target: Target, ty: Type, dir: Dir, node: ValueNode, r: Result<Value, ParseErrorKind>) -> bool {
    match value_error(target.tys@, ty, dir, node) {
        Some(e) => r == Err::<Value, ParseErrorKind>(e),
        None => r is Ok && value_of(target, ty, dir, node, r->Ok_0),
    }
}


proof fn lemma_elems_error_prefix(tys: Seq<Type>, ety: Type, dir: Dir, s: Seq<ValueNode>, k: int)
    requires
        0 <= k <= s.len(),
        elems_error(tys, ety, dir, s.take(k)) is Some,
    ensures
        elems_error(tys, ety, dir, s) == elems_error(tys, ety, dir, s.take(k)),
    decreases s.len() - k,
{
    if s.len() == k {
        assert(s.take(k) =~= s);
    } else {
        assert(s.drop_last().take(k) =~= s.take(k));
        lemma_elems_error_prefix(tys, ety, dir, s.drop_last(), k);
    }
}

proof fn lemma_fields_error_prefix(tys: Seq<Type>, fs: Seq<Field>, dir: Dir, ch: Seq<ValueNode>, k: nat, i: nat)
    requires
        k <= i <= fs.len(),
        fields_error(tys, fs, dir, ch, k) is Some,
    ensures
        fields_error(tys, fs, dir, ch, i) == fields_error(tys, fs, dir, ch, k),
    decreases i - k,
{
    if i > k {
        lemma_fields_error_prefix(tys, fs, dir, ch, k, (i - 1) as nat);
    }
}

proof fn lemma_nonpad_mono(fs: Seq<Field>, i: int, j: int)
    requires
        0 <= i <= j,
    ensures
        nonpad_before(fs, i) <= nonpad_before(fs, j),
    decreases j - i,
{
    if i < j {
        lemma_nonpad_mono(fs, i, j - 1);
    }
}

proof fn lemma_option_index(fs: Seq<Field>, name: Seq<char>, i: int)
    requires
        0 <= i <= fs.len(),
        forall|j: int| 0 <= j < i ==> (#[trigger] fs[j]).name@ != name,
    ensures
        i < fs.len() && fs[i].name@ == name ==> option_index(fs, name) == Some(i),
        i == fs.len() ==> option_index(fs, name) is None,
    decreases fs.len(),
{
    if fs.len() > 0 {
        if i < fs.len() {
            if fs[i].name@ == name {
                if i == fs.len() - 1 {
                    lemma_option_index(fs.drop_last(), name, i);
                } else {
                    lemma_option_index(fs.drop_last(), name, i);
                }
            }
        } else {
            lemma_option_index(fs.drop_last(), name, i - 1);
        }
    }
}

/// The type of id `tid` among the target's types is convertible.
proof fn lemma_elem_convertible(target: Target, tid: TypeId)
    requires
        parse_ready(target),
        has_ty(target.tys@, tid),
    ensures
        convertible(ty_with_id(target.tys@, tid), target.tys@),
{
    let tys = target.tys@;
    let j = choose|i: int| 0 <= i < tys.len() && tys[i].spec_comm().id == tid;
    assert(tys[j] == ty_with_id(tys, tid));
    assert(convertible(tys[j], tys));
}

/// Converts `node` as a value of `ty` (see `value_error` and `value_of`).
pub fn convert_value(target: &Target, ty: &Type, dir: Dir, node: &ValueNode) -> (r: Result<Value, ParseErrorKind>)
    requires
        parse_ready(*target),
        convertible(*ty, target.tys@),
    ensures
        converted(*target, *ty, dir, *node, r),
    decreases *node, 1nat,
{
    let mismatch = ParseErrorKind::TypeValueNotMatch(TypeValueNotMatchError { shape: node.shape(), got: ty.kind() });
    match node {
        ValueNode::Auto => match convert_auto(ty, dir) {
            Ok(v) => Ok(v),
            Err(_) => Err(mismatch),
        },
        ValueNode::Int(n) => {
            let k = ty.kind();
            if k == TypeKind::BufferBlob || k == TypeKind::BufferString || k == TypeKind::BufferFilename || k
                == TypeKind::Array || k == TypeKind::Struct || k == TypeKind::Union {
                return Err(mismatch);
            }
            match convert_int(target, ty, dir, *n) {
                Ok(v) => Ok(v),
                Err(_) => Err(mismatch),
            }
        },
        ValueNode::Data(d, sz) => convert_data(ty, dir, d, *sz),
        ValueNode::Ptr(..) => convert_ptr(target, ty, dir, node),
        ValueNode::Vma(a, sz) => {
            if ty.kind() != TypeKind::Vma {
                return Err(mismatch);
            }
            match parse_addr(*a) {
                Err(_) => Err(ParseErrorKind::BadPtrAddr),
                Ok(addr) => match convert_vma(target, ty, dir, addr, *sz) {
                    Ok(v) => Ok(v),
                    Err(_) => Err(mismatch),
                },
            }
        },
        ValueNode::Res(rn) => convert_res(ty, dir, rn),
        ValueNode::Array(_) => convert_array(target, ty, dir, node),
        ValueNode::Struct(_) => convert_struct(target, ty, dir, node),
        ValueNode::Union(..) => convert_union(target, ty, dir, node),
    }
}

/// Data: decoded, then sized by the written size, else by its own length
/// for a type of variable length, else by the type's size. Output data
/// keeps only that size; input data is padded with zeros up to it.
pub fn convert_data(ty: &Type, dir: Dir, d: &DataNode, sz: Option<u64>) -> (r: Result<Value, ParseErrorKind>)
    ensures
        converted_data(*ty, dir, *d, sz, r),
{
    let k = ty.kind();
    if !(k == TypeKind::BufferBlob || k == TypeKind::BufferString || k == TypeKind::BufferFilename) {
        return Err(
            ParseErrorKind::TypeValueNotMatch(TypeValueNotMatchError { shape: ValueShape::Data, got: k }),
        );
    }
    let decoded_bytes = match d {
        DataNode::Readable(b) => match decode_readable_data(b.as_slice()) {
            Ok(v) => v,
            Err(_) => {
                return Err(ParseErrorKind::BadEncode);
            },
        },
        DataNode::NonReadable(b) => match hex_decode(b.as_slice()) {
            Ok(v) => v,
            Err(_) => {
                return Err(ParseErrorKind::BadHex);
            },
        },
    };
    let ghost bytes = decoded_bytes@;
    let mut data = decoded_bytes;
    let mut size: u64 = data.len() as u64;
    if !ty.varlen() {
        size = ty.size();
    }
    match sz {
        Some(n) => {
            size = n;
        },
        None => {},
    }
    if dir == Dir::Out {
        return Ok(Value::from_data(DataValue::new_out_data(ty.id(), dir, size)));
    }
    while (data.len() as u64) < size
        invariant
            bytes.len() <= data@.len(),
            data@.len() <= bytes.len() || data@.len() <= size,
            data@.subrange(0, bytes.len() as int) == bytes,
            forall|j: int| bytes.len() <= j < data@.len() ==> data@[j] == 0u8,
        decreases size - data@.len(),
    {
        data.push(0u8);
    }
    proof {
        assert(data@ =~= padded(bytes, size as nat));
    }
    Ok(Value::from_data(DataValue::new(ty.id(), dir, data)))
}

/// `r` is what converting data (see `convert_data`) gives.
pub open spec fn converted_data(ty: Type, dir: Dir, d: DataNode, sz: Option<u64>, r: Result<Value, ParseErrorKind>) -> bool {
    let node = ValueNode::Data(d, sz);
    match value_error(Seq::empty(), ty, dir, node) {
        Some(e) => r == Err::<Value, ParseErrorKind>(e),
        None => r is Ok && data_value_of(ty, dir, d, sz, r->Ok_0),
    }
}

/// The value data stands for (see `convert_data`).
pub open spec fn data_value_of(ty: Type, dir: Dir, d: DataNode, sz: Option<u64>, v: Value) -> bool {
    let c = comm_of(ty, dir);
    let bytes = data_bytes(d)->0;
    let size: nat = match sz {
        Some(s) => s as nat,
        None => if ty.spec_comm().varlen {
            bytes.len()
        } else {
            ty.spec_comm().size as nat
        },
    };
    &&& v.comm == c
    &&& v.inner matches ValueKindInner::DataValue(dv)
    &&& dv.comm == c
    &&& if dir == Dir::Out {
        dv.data@.len() == 0 && dv.size == size
    } else {
        dv.data@ == padded(bytes, size) && dv.size == 0
    }
}

/// A resource: one produced by the call is an output value with the
/// written value (or 0); a used one keeps the direction and takes the
/// written divisor and addend (or 0).
pub fn convert_res(ty: &Type, dir: Dir, rn: &ResNode) -> (r: Result<Value, ParseErrorKind>)
    ensures
        ty is Res ==> r == Ok::<Value, ParseErrorKind>(res_node_value(*ty, dir, *rn)),
        !(ty is Res) ==> r == Err::<Value, ParseErrorKind>(
            ParseErrorKind::TypeValueNotMatch(TypeValueNotMatchError { shape: ValueShape::Res, got: ty.spec_kind() }),
        ),
{
    let k = ty.kind();
    if k != TypeKind::Res {
        return Err(ParseErrorKind::TypeValueNotMatch(TypeValueNotMatchError { shape: ValueShape::Res, got: k }));
    }
    match rn {
        ResNode::Out { id, val } => {
            let v = match val {
                Some(x) => *x,
                None => 0,
            };
            Ok(Value::from_res(ResValue::new_res(ty.id(), *id, v)))
        },
        ResNode::In { id, op_div, op_add } => {
            let mut v = ResValue::new_ref(ty.id(), dir, *id);
            v.op_div = match op_div {
                Some(x) => *x,
                None => 0,
            };
            v.op_add = match op_add {
                Some(x) => *x,
                None => 0,
            };
            Ok(Value::from_res(v))
        },
    }
}

/// A pointer: its address decoded (0 when left to the library), and its
/// pointee the default value of the pointed type when none is written,
/// absent for `nil`, or the written value converted.
pub fn convert_ptr(target: &Target, ty: &Type, dir: Dir, node: &ValueNode) -> (r: Result<Value, ParseErrorKind>)
    requires
        parse_ready(*target),
        convertible(*ty, target.tys@),
        node is Ptr,
    ensures
        converted(*target, *ty, dir, *node, r),
    decreases *node, 0nat,
{
    let k = ty.kind();
    if k != TypeKind::Ptr {
        return Err(ParseErrorKind::TypeValueNotMatch(TypeValueNotMatchError { shape: ValueShape::Ptr, got: k }));
    }
    let pt = ty.checked_as_ptr();
    match node {
        ValueNode::Ptr(a, p) => {
            let addr = match a {
                AddrNode::Int(x) => match parse_addr(*x) {
                    Ok(v) => v,
                    Err(_) => {
                        return Err(ParseErrorKind::BadPtrAddr);
                    },
                },
                AddrNode::Auto => 0,
            };
            let ety = lookup_ty(target, pt.elem);
            proof {
                lemma_elem_convertible(*target, pt.elem);
            }
            let comm = ValueCommon::new(ty.id(), dir);
            match p {
                None => {
                    let ev = ety.default_value(pt.dir);
                    Ok(Value::from_ptr(PtrValue { comm, addr, pointee: Some(Box::new(ev)) }))
                },
                Some(PointeeNode::Nil) => Ok(Value::from_ptr(PtrValue { comm, addr, pointee: None })),
                Some(PointeeNode::Value(b)) => {
                    proof {
                        assert(decreases_to!(*node => **b));
                    }
                    match convert_value(target, ety, pt.dir, b) {
                        Ok(v) => Ok(Value::from_ptr(PtrValue { comm, addr, pointee: Some(Box::new(v)) })),
                        Err(e) => Err(e),
                    }
                },
            }
        },
        _ => Err(ParseErrorKind::BadPtrAddr),
    }
}

/// An array: its elements converted in order; an array of fixed length is
/// padded with default elements or cut to that length.
pub fn convert_array(target: &Target, ty: &Type, dir: Dir, node: &ValueNode) -> (r: Result<Value, ParseErrorKind>)
    requires
        parse_ready(*target),
        convertible(*ty, target.tys@),
        node is Array,
    ensures
        converted(*target, *ty, dir, *node, r),
    decreases *node, 0nat,
{
    let k = ty.kind();
    if k != TypeKind::Array {
        return Err(ParseErrorKind::TypeValueNotMatch(TypeValueNotMatchError { shape: ValueShape::Array, got: k }));
    }
    let at = ty.checked_as_array();
    let ghost tys = target.tys@;
    let ghost ety = *at.elem;
    match node {
        ValueNode::Array(elems) => {
            let mut vals: Vec<Value> = Vec::new();
            let mut i: usize = 0;
            proof {
                assert(elems@.take(0) =~= Seq::<ValueNode>::empty());
            }
            while i < elems.len()
                invariant
                    parse_ready(*target),
                    convertible(ety, tys),
                    tys == target.tys@,
                    *ty == Type::Array(*at),
                    *at.elem == ety,
                    *node == ValueNode::Array(*elems),
                    i <= elems@.len(),
                    vals@.len() == i,
                    elems_error(tys, ety, dir, elems@.take(i as int)) is None,
                    forall|j: int| 0 <= j < i ==> value_of(*target, ety, dir, elems@[j], #[trigger] vals@[j]),
                decreases elems.len() - i,
            {
                proof {
                    assert(decreases_to!(*node => elems@[i as int])) by {
                        assert(decreases_to!(*node => *elems));
                        assert(decreases_to!(*elems => elems@));
                        assert(decreases_to!(elems@ => elems@[i as int]));
                    }
                    assert(elems@.take(i + 1).drop_last() =~= elems@.take(i as int));
                    assert(elems@.take(i + 1).last() == elems@[i as int]);
                }
                match convert_value(target, &at.elem, dir, &elems[i]) {
                    Ok(v) => {
                        vals.push(v);
                    },
                    Err(e) => {
                        proof {
                            assert(elems_error(tys, ety, dir, elems@.take(i + 1)) == Some(e));
                            lemma_elems_error_prefix(tys, ety, dir, elems@, i + 1);
                            assert(elems_error(tys, ety, dir, elems@) == Some(e));
                            assert(value_error(tys, *ty, dir, *node) == Some(e));
                        }
                        return Err(e);
                    },
                }
                i = i + 1;
            }
            proof {
                assert(elems@.take(i as int) =~= elems@);
            }
            match at.range {
                Some((lo, hi)) => {
                    if lo == hi {
                        while (vals.len() as u64) < lo
                            invariant
                                convertible(ety, tys),
                                *at.elem == ety,
                                elems@.len() <= vals@.len(),
                                vals@.len() <= elems@.len() || vals@.len() <= lo,
                                forall|j: int| 0 <= j < elems@.len() ==> value_of(*target, ety, dir, elems@[j], #[trigger] vals@[j]),
                                forall|j: int| elems@.len() <= j < vals@.len() ==> ety.is_default_of(dir, #[trigger] vals@[j]),
                            decreases lo - vals@.len(),
                        {
                            let d = at.elem.default_value(dir);
                            vals.push(d);
                        }
                        let ghost before = vals@;
                        vals.truncate(lo as usize);
                        proof {
                            assert forall|j: int| 0 <= j < vals@.len() implies vals@[j] == before[j] by {}
                        }
                    }
                },
                None => {},
            }
            Ok(Value::from_group(GroupValue::new(ty.id(), dir, vals)))
        },
        _ => Err(ParseErrorKind::BadPtrAddr),
    }
}

/// A struct: padding fields take 0 and do not use up written values, the
/// other fields take the written values in order; once these run out the
/// remaining fields take their defaults. More values than fields is an
/// error.
pub fn convert_struct(target: &Target, ty: &Type, dir: Dir, node: &ValueNode) -> (r: Result<Value, ParseErrorKind>)
    requires
        parse_ready(*target),
        convertible(*ty, target.tys@),
        node is Struct,
    ensures
        converted(*target, *ty, dir, *node, r),
    decreases *node, 0nat,
{
    let kd = ty.kind();
    if kd != TypeKind::Struct {
        return Err(ParseErrorKind::TypeValueNotMatch(TypeValueNotMatchError { shape: ValueShape::Struct, got: kd }));
    }
    let st = ty.checked_as_struct();
    let ghost tys = target.tys@;
    let ghost fs = st.fields@;
    match node {
        ValueNode::Struct(ch) => {
            let ghost n = ch@.len();
            let mut vals: Vec<Value> = Vec::new();
            let mut i: usize = 0;
            let mut k: usize = 0;
            while i < st.fields.len()
                invariant
                    parse_ready(*target),
                    convertible(*ty, tys),
                    *ty == Type::Struct(*st),
                    tys == target.tys@,
                    fs == st.fields@,
                    *node == ValueNode::Struct(*ch),
                    n == ch@.len(),
                    i <= fs.len(),
                    k == nonpad_before(fs, i as int),
                    k <= n,
                    vals@.len() == i,
                    fields_error(tys, fs, dir, ch@, i as nat) is None,
                    forall|j: int|
                        0 <= j < i ==> {
                            let f = fs[j];
                            let kj = nonpad_before(fs, j);
                            if is_pad(*f.ty) {
                                kj <= n && #[trigger] vals@[j] == int_value(*f.ty, field_dir(f, dir), 0)
                            } else {
                                kj < n && value_of(*target, *f.ty, field_dir(f, dir), ch@[kj as int], vals@[j])
                            }
                        },
                ensures
                    i <= fs.len(),
                    k == nonpad_before(fs, i as int),
                    k <= n,
                    vals@.len() == i,
                    fields_error(tys, fs, dir, ch@, i as nat) is None,
                    i < fs.len() ==> k == n && !is_pad(*fs[i as int].ty),
                    forall|j: int|
                        0 <= j < i ==> {
                            let f = fs[j];
                            let kj = nonpad_before(fs, j);
                            if is_pad(*f.ty) {
                                kj <= n && #[trigger] vals@[j] == int_value(*f.ty, field_dir(f, dir), 0)
                            } else {
                                kj < n && value_of(*target, *f.ty, field_dir(f, dir), ch@[kj as int], vals@[j])
                            }
                        },
                decreases fs.len() - i,
            {
                let f = &st.fields[i];
                let fdir = match f.dir {
                    Some(d) => d,
                    None => dir,
                };
                proof {
                    assert(convertible(*fs[i as int].ty, tys));
                }
                let mut pad = false;
                match f.ty.as_const() {
                    Some(c) => {
                        pad = c.pad;
                    },
                    None => {},
                }
                proof {
                    assert(pad == is_pad(*fs[i as int].ty));
                    assert(nonpad_before(fs, i + 1) == nonpad_before(fs, i as int) + if pad {
                        0nat
                    } else {
                        1nat
                    });
                }
                if pad {
                    vals.push(Value::from_int(IntegerValue::new(f.ty.id(), fdir, 0)));
                    proof {
                        assert(fields_error(tys, fs, dir, ch@, (i + 1) as nat) is None);
                    }
                } else {
                    if k >= ch.len() {
                        break;
                    }
                    proof {
                        assert(*node == ValueNode::Struct(*ch));
                        assert(decreases_to!(*node => ch@[k as int])) by {
                            assert(decreases_to!(*node => node->Struct_0));
                            assert(decreases_to!(node->Struct_0 => node->Struct_0@));
                            assert(decreases_to!(node->Struct_0@ => node->Struct_0@[k as int]));
                        }
                    }
                    match convert_value(target, &f.ty, fdir, &ch[k]) {
                        Ok(v) => {
                            vals.push(v);
                            proof {
                                assert(fields_error(tys, fs, dir, ch@, (i + 1) as nat) is None);
                            }
                        },
                        Err(e) => {
                            proof {
                                assert(fields_error(tys, fs, dir, ch@, (i + 1) as nat) == Some(e));
                                lemma_fields_error_prefix(tys, fs, dir, ch@, (i + 1) as nat, fs.len());
                            }
                            return Err(e);
                        },
                    }
                    k = k + 1;
                }
                i = i + 1;
            }
            let ghost brk = i;
            while i < st.fields.len()
                invariant
                    convertible(*ty, tys),
                    *ty == Type::Struct(*st),
                    fs == st.fields@,
                    tys == target.tys@,
                    *node == ValueNode::Struct(*ch),
                    n == ch@.len(),
                    brk <= i <= fs.len(),
                    vals@.len() == i,
                    nonpad_before(fs, brk as int) == k,
                    k <= n,
                    brk < fs.len() ==> k == n && !is_pad(*fs[brk as int].ty),
                    i > brk ==> nonpad_before(fs, i as int) > n,
                    brk == fs.len() ==> k == nonpad_before(fs, fs.len() as int),
                    fields_error(tys, fs, dir, ch@, i as nat) is None,
                    forall|j: int|
                        0 <= j < brk ==> {
                            let f = fs[j];
                            let kj = nonpad_before(fs, j);
                            if is_pad(*f.ty) {
                                kj <= n && #[trigger] vals@[j] == int_value(*f.ty, field_dir(f, dir), 0)
                            } else {
                                kj < n && value_of(*target, *f.ty, field_dir(f, dir), ch@[kj as int], vals@[j])
                            }
                        },
                    forall|j: int|
                        brk <= j < i ==> (#[trigger] fs[j]).ty.is_default_of(field_dir(fs[j], dir), vals@[j])
                            && nonpad_before(fs, j) >= n && (is_pad(*fs[j].ty) ==> nonpad_before(fs, j) > n),
                decreases fs.len() - i,
            {
                proof {
                    assert(nonpad_before(fs, i as int) >= n);
                    let p = is_pad(*fs[i as int].ty);
                    assert(nonpad_before(fs, i + 1) == nonpad_before(fs, i as int) + if p {
                        0nat
                    } else {
                        1nat
                    });
                    assert(fields_error(tys, fs, dir, ch@, (i + 1) as nat) is None);
                }
                let f = &st.fields[i];
                let fdir = match f.dir {
                    Some(d) => d,
                    None => dir,
                };
                proof {
                    assert(convertible(*fs[i as int].ty, tys));
                }
                let d = f.ty.default_value(fdir);
                vals.push(d);
                i = i + 1;
            }
            proof {
                lemma_nonpad_mono(fs, brk as int, fs.len() as int);
                let c = comm_of(*ty, dir);
                assert forall|j: int|
                    0 <= j < fs.len() implies {
                        let f = fs[j];
                        let kj = nonpad_before(fs, j);
                        if is_pad(*f.ty) && kj <= n {
                            #[trigger] vals@[j] == int_value(*f.ty, field_dir(f, dir), 0)
                        } else if !is_pad(*f.ty) && kj < n {
                            value_of(*target, *f.ty, field_dir(f, dir), ch@[kj as int], vals@[j])
                        } else {
                            f.ty.is_default_of(field_dir(f, dir), vals@[j])
                        }
                    } by {
                    if j >= brk {
                        assert(fs[j].ty.is_default_of(field_dir(fs[j], dir), vals@[j]));
                    }
                }
            }
            if k < ch.len() {
                let sh = ch[k].shape();
                return Err(ParseErrorKind::TypeValueNotMatch(TypeValueNotMatchError { shape: sh, got: TypeKind::Struct }));
            }
            Ok(Value::from_group(GroupValue::new(ty.id(), dir, vals)))
        },
        _ => Err(ParseErrorKind::BadPtrAddr),
    }
}

/// A union: the option named, with the written value converted or the
/// option's default.
pub fn convert_union(target: &Target, ty: &Type, dir: Dir, node: &ValueNode) -> (r: Result<Value, ParseErrorKind>)
    requires
        parse_ready(*target),
        convertible(*ty, target.tys@),
        node is Union,
    ensures
        converted(*target, *ty, dir, *node, r),
    decreases *node, 0nat,
{
    let kd = ty.kind();
    if kd != TypeKind::Union {
        return Err(ParseErrorKind::TypeValueNotMatch(TypeValueNotMatchError { shape: ValueShape::Union, got: kd }));
    }
    let ut = ty.checked_as_union();
    match node {
        ValueNode::Union(name, val) => {
            let mut idx: usize = 0;
            while idx < ut.fields.len()
                invariant
                    idx <= ut.fields@.len(),
                    forall|j: int| 0 <= j < idx ==> (#[trigger] ut.fields@[j]).name@ != name@,
                ensures
                    idx <= ut.fields@.len(),
                    forall|j: int| 0 <= j < idx ==> (#[trigger] ut.fields@[j]).name@ != name@,
                    idx < ut.fields@.len() ==> ut.fields@[idx as int].name@ == name@,
                decreases ut.fields.len() - idx,
            {
                if ut.fields[idx].name == *name {
                    break;
                }
                idx = idx + 1;
            }
            proof {
                lemma_option_index(ut.fields@, name@, idx as int);
            }
            if idx == ut.fields.len() {
                return Err(ParseErrorKind::UnionOptionNotExists);
            }
            let f = &ut.fields[idx];
            let fdir = match f.dir {
                Some(d) => d,
                None => dir,
            };
            proof {
                assert(convertible(*ut.fields@[idx as int].ty, target.tys@));
            }
            let v = match val {
                Some(b) => {
                    proof {
                        assert(decreases_to!(*node => **b));
                    }
                    match convert_value(target, &f.ty, fdir, b) {
                        Ok(v) => v,
                        Err(e) => {
                            return Err(e);
                        },
                    }
                },
                None => f.ty.default_value(fdir),
            };
            Ok(Value::from_union(UnionValue::new(ty.id(), dir, idx as u64, v)))
        },
        _ => Err(ParseErrorKind::BadPtrAddr),
    }
}

/// A call as written: the resource its result is named as, if any, the
/// syscall's name, and its arguments.
pub struct CallNode {
    pub ret: Option<ResValueId>,
    pub name: String,
    pub args: Vec<ValueNode>,
}

/// A call built from its text: the syscall, one value per parameter, and
/// the resource it produces.
pub struct ParsedCall {
    pub sid: SyscallId,
    pub args: Vec<Value>,
    pub ret: Option<Value>,
    /// The resources the call produces, by kind name, as `fixup` records
    /// them.
    pub generated_res: Vec<(String, Vec<ResValueId>)>,
    /// The resources the call uses, by kind name, as `fixup` records them.
    pub used_res: Vec<(String, Vec<ResValueId>)>,
}

/// The last syscall named `name`.
pub open spec fn named_syscall(calls: Seq<Syscall>, name: Seq<char>) -> Option<Syscall>
    decreases calls.len(),
{
    if calls.len() == 0 {
        None
    } else if calls.last().name@ == name {
        Some(calls.last())
    } else {
        named_syscall(calls.drop_last(), name)
    }
}

proof fn lemma_named_syscall(calls: Seq<Syscall>, name: Seq<char>, i: int)
    requires
        -1 <= i < calls.len(),
        i >= 0 ==> calls[i].name@ == name,
        forall|j: int| i < j < calls.len() ==> (#[trigger] calls[j]).name@ != name,
    ensures
        i >= 0 ==> named_syscall(calls, name) == Some(calls[i]),
        i < 0 ==> named_syscall(calls, name) is None,
    decreases calls.len(),
{
    if calls.len() > 0 && i < calls.len() - 1 {
        lemma_named_syscall(calls.drop_last(), name, i);
    }
}

/// The first error among the arguments: too many of them, or one that does
/// not convert.
pub open spec fn args_error(tys: Seq<Type>, ps: Seq<Field>, s: Seq<ValueNode>) -> Option<ParseErrorKind>
    decreases s.len(),
{
    if s.len() == 0 {
        None
    } else {
        match args_error(tys, ps, s.drop_last()) {
            Some(e) => Some(e),
            None => if s.len() - 1 >= ps.len() {
                Some(ParseErrorKind::PrototypeNotMatch)
            } else {
                value_error(tys, *ps[s.len() - 1].ty, field_dir(ps[s.len() - 1], Dir::In), s.last())
            },
        }
    }
}

/// One value per parameter: the written arguments converted, the
/// parameters left out taking their defaults.
pub open spec fn args_of(target: Target, ps: Seq<Field>, s: Seq<ValueNode>, vals: Seq<Value>) -> bool {
    &&& vals.len() == ps.len()
    &&& forall|i: int|
        0 <= i < ps.len() ==> if i < s.len() {
            value_of(target, *ps[i].ty, field_dir(ps[i], Dir::In), s[i], #[trigger] vals[i])
        } else {
            ps[i].ty.is_default_of(field_dir(ps[i], Dir::In), vals[i])
        }
}

/// The error converting a call gives, if any.
pub open spec fn call_error(target: Target, node: CallNode) -> Option<ParseErrorKind> {
    match named_syscall(target.all_syscalls@, node.name@) {
        None => Some(ParseErrorKind::CallNotExists),
        Some(sc) => args_error(target.tys@, sc.params@, node.args@),
    }
}

/// `pc` is the call `node` stands for (when it has no error).
pub open spec fn call_of(target: Target, node: CallNode, pc: ParsedCall) -> bool {
    let sc = named_syscall(target.all_syscalls@, node.name@)->0;
    &&& pc.sid == sc.id
    &&& args_of(target, sc.params@, node.args@, pc.args@)
    &&& pc.ret == match (sc.ret, node.ret) {
        (Some(t), Some(rid)) => Some(res_value(t, Dir::Out, ResValueKind::Own(rid), 0, 0, 0)),
        _ => None,
    }
}

proof fn lemma_args_error_prefix(tys: Seq<Type>, ps: Seq<Field>, s: Seq<ValueNode>, k: int)
    requires
        0 <= k <= s.len(),
        args_error(tys, ps, s.take(k)) is Some,
    ensures
        args_error(tys, ps, s) == args_error(tys, ps, s.take(k)),
    decreases s.len() - k,
{
    if s.len() == k {
        assert(s.take(k) =~= s);
    } else {
        assert(s.drop_last().take(k) =~= s.take(k));
        lemma_args_error_prefix(tys, ps, s.drop_last(), k);
    }
}

/// Converts a call: finds the syscall by name (the last one of that name),
/// converts the written arguments against its parameters (inputs unless a
/// parameter says otherwise), fills the parameters left out with their
/// defaults, and names its result when the syscall has one and the text
/// names it.
pub fn convert_call(target: &Target, node: &CallNode) -> (r: Result<ParsedCall, ParseErrorKind>)
    requires
        parse_ready(*target),
    ensures
        match call_error(*target, *node) {
            Some(e) => r matches Err(x) && x == e,
            None => r matches Ok(pc) && call_of(*target, *node, pc),
        },
{
    let sc = match target.syscall_of_name(node.name.as_str()) {
        Some(s) => s,
        None => {
            proof {
                lemma_named_syscall(target.all_syscalls@, node.name@, -1);
            }
            return Err(ParseErrorKind::CallNotExists);
        },
    };
    let ghost ci = choose|i: int|
        0 <= i < target.all_syscalls@.len() && target.all_syscalls@[i] == *sc && sc.name@ == node.name@ && forall|
            j: int,
        |
            i < j < target.all_syscalls@.len() ==> target.all_syscalls@[j].name@ != node.name@;
    proof {
        lemma_named_syscall(target.all_syscalls@, node.name@, ci);
    }
    let ghost tys = target.tys@;
    let ghost ps = sc.params@;
    let ret = match (&sc.ret, node.ret) {
        (Some(t), Some(rid)) => Some(Value::from_res(ResValue::new_res(t.id(), rid, 0))),
        _ => None,
    };
    let mut args: Vec<Value> = Vec::new();
    let mut i: usize = 0;
    proof {
        assert(node.args@.take(0) =~= Seq::<ValueNode>::empty());
    }
    while i < node.args.len()
        invariant
            parse_ready(*target),
            tys == target.tys@,
            ps == sc.params@,
            0 <= ci < target.all_syscalls@.len(),
            target.all_syscalls@[ci] == *sc,
            named_syscall(target.all_syscalls@, node.name@) == Some(*sc),
            i <= node.args@.len(),
            i <= ps.len(),
            args@.len() == i,
            args_error(tys, ps, node.args@.take(i as int)) is None,
            forall|j: int|
                0 <= j < i ==> value_of(*target, *ps[j].ty, field_dir(ps[j], Dir::In), node.args@[j], #[trigger] args@[j]),
        decreases node.args.len() - i,
    {
        proof {
            assert(node.args@.take(i + 1).drop_last() =~= node.args@.take(i as int));
            assert(node.args@.take(i + 1).last() == node.args@[i as int]);
        }
        if i >= sc.params.len() {
            proof {
                assert(args_error(tys, ps, node.args@.take(i + 1)) == Some(ParseErrorKind::PrototypeNotMatch));
                lemma_args_error_prefix(tys, ps, node.args@, i + 1);
            }
            return Err(ParseErrorKind::PrototypeNotMatch);
        }
        let p = &sc.params[i];
        let pdir = match p.dir {
            Some(d) => d,
            None => Dir::In,
        };
        proof {
            assert(convertible(*target.all_syscalls@[ci].params@[i as int].ty, tys));
        }
        match convert_value(target, &p.ty, pdir, &node.args[i]) {
            Ok(v) => {
                args.push(v);
            },
            Err(e) => {
                proof {
                    assert(args_error(tys, ps, node.args@.take(i + 1)) == Some(e));
                    lemma_args_error_prefix(tys, ps, node.args@, i + 1);
                }
                return Err(e);
            },
        }
        i = i + 1;
    }
    proof {
        assert(node.args@.take(i as int) =~= node.args@);
    }
    while i < sc.params.len()
        invariant
            parse_ready(*target),
            tys == target.tys@,
            ps == sc.params@,
            0 <= ci < target.all_syscalls@.len(),
            target.all_syscalls@[ci] == *sc,
            node.args@.len() <= i <= ps.len(),
            args@.len() == i,
            forall|j: int|
                0 <= j < node.args@.len() ==> value_of(*target, *ps[j].ty, field_dir(ps[j], Dir::In), node.args@[j], #[trigger] args@[j]),
            forall|j: int| node.args@.len() <= j < i ==> (#[trigger] ps[j]).ty.is_default_of(field_dir(ps[j], Dir::In), args@[j]),
        decreases sc.params.len() - i,
    {
        let p = &sc.params[i];
        let pdir = match p.dir {
            Some(d) => d,
            None => Dir::In,
        };
        proof {
            assert(convertible(*target.all_syscalls@[ci].params@[i as int].ty, tys));
        }
        let d = p.ty.default_value(pdir);
        args.push(d);
        i = i + 1;
    }
    Ok(ParsedCall { sid: sc.id, args, ret, generated_res: Vec::new(), used_res: Vec::new() })
}

/// The first error among the calls, or `NoCalls` when there is none.
pub open spec fn prog_error(target: Target, calls: Seq<CallNode>) -> Option<ParseErrorKind> {
    if calls.len() == 0 {
        Some(ParseErrorKind::NoCalls)
    } else {
        calls_error(target, calls)
    }
}

/// The first error among the calls.
pub open spec fn calls_error(target: Target, calls: Seq<CallNode>) -> Option<ParseErrorKind>
    decreases calls.len(),
{
    if calls.len() == 0 {
        None
    } else {
        match calls_error(target, calls.drop_last()) {
            Some(e) => Some(e),
            None => call_error(target, calls.last()),
        }
    }
}

proof fn lemma_calls_error_prefix(target: Target, s: Seq<CallNode>, k: int)
    requires
        0 <= k <= s.len(),
        calls_error(target, s.take(k)) is Some,
    ensures
        calls_error(target, s) == calls_error(target, s.take(k)),
    decreases s.len() - k,
{
    if s.len() == k {
        assert(s.take(k) =~= s);
    } else {
        assert(s.drop_last().take(k) =~= s.take(k));
        lemma_calls_error_prefix(target, s.drop_last(), k);
    }
}

/// Converts the calls of a program in order (see `convert_call`); a
/// program without calls is an error.
pub fn convert_prog(target: &Target, calls: &Vec<CallNode>) -> (r: Result<Vec<ParsedCall>, ParseErrorKind>)
    requires
        parse_ready(*target),
    ensures
        match prog_error(*target, calls@) {
            Some(e) => r matches Err(x) && x == e,
            None => r matches Ok(v) && v@.len() == calls@.len() && forall|i: int|
                0 <= i < calls@.len() ==> call_of(*target, calls@[i], #[trigger] v@[i]),
        },
{
    if calls.len() == 0 {
        return Err(ParseErrorKind::NoCalls);
    }
    let mut out: Vec<ParsedCall> = Vec::new();
    let mut i: usize = 0;
    proof {
        assert(calls@.take(0) =~= Seq::<CallNode>::empty());
    }
    while i < calls.len()
        invariant
            parse_ready(*target),
            i <= calls@.len(),
            out@.len() == i,
            calls_error(*target, calls@.take(i as int)) is None,
            forall|j: int| 0 <= j < i ==> call_of(*target, calls@[j], #[trigger] out@[j]),
        decreases calls.len() - i,
    {
        proof {
            assert(calls@.take(i + 1).drop_last() =~= calls@.take(i as int));
            assert(calls@.take(i + 1).last() == calls@[i as int]);
        }
        match convert_call(target, &calls[i]) {
            Ok(pc) => {
                out.push(pc);
            },
            Err(e) => {
                proof {
                    assert(calls_error(*target, calls@.take(i + 1)) == Some(e));
                    lemma_calls_error_prefix(*target, calls@, i + 1);
                }
                return Err(e);
            },
        }
        i = i + 1;
    }
    proof {
        assert(calls@.take(i as int) =~= calls@);
    }
    Ok(out)
}

/// `cs` are the calls `calls` stand for, one for one.
pub open spec fn calls_of(target: Target, calls: Seq<CallNode>, cs: Seq<ParsedCall>) -> bool {
    cs.len() == calls.len() && forall|i: int| 0 <= i < cs.len() ==> call_of(target, calls[i], #[trigger] cs[i])
}

/// Parses a program from its written calls: converts them (see
/// `convert_prog`), then fixes up the result (see `fixup`). Values whose
/// types the target does not have, or a pointee too large for the target's
/// memory, are an error.
pub fn parse_prog(target: &Target, calls: &Vec<CallNode>) -> (r: Result<Vec<ParsedCall>, ParseErrorKind>)
    requires
        parse_ready(*target),
        target.page_sz * target.page_num <= MAX_MEM_SIZE,
    ensures
        prog_error(*target, calls@) matches Some(e) ==> r matches Err(x) && x == e,
        prog_error(*target, calls@) is None ==> {
            ||| r matches Err(x) && x == ParseErrorKind::NoRoom && exists|cs: Seq<ParsedCall>|
                #[trigger] calls_of(*target, calls@, cs) && exists|i: int|
                    0 <= i < cs.len() && !call_values_ok(*target, #[trigger] cs[i])
            ||| r matches Ok(v) && v@.len() == calls@.len() && exists|cs: Seq<ParsedCall>, m: Map<ResValueId, ResValueId>|
                #[trigger] calls_of(*target, calls@, cs) && #[trigger] numbering_ok(m) && forall|i: int|
                    0 <= i < cs.len() ==> call_fixed(*target, #[trigger] cs[i], v@[i], m) && call_fix_ok(
                        *target,
                        cs[i],
                        v@[i],
                        calls_state(*target, cs, i as nat, fixup_start(*target)),
                    ) && res_tables_ok(target.tys@, v@[i])
        },
{
    let mut cs = match convert_prog(target, calls) {
        Ok(v) => v,
        Err(e) => {
            return Err(e);
        },
    };
    let ghost conv = cs@;
    proof {
        assert(calls_of(*target, calls@, conv));
    }
    let mut i: usize = 0;
    while i < cs.len()
        invariant
            parse_ready(*target),
            target.page_sz * target.page_num <= MAX_MEM_SIZE,
            cs@ == conv,
            calls_of(*target, calls@, conv),
            prog_error(*target, calls@) is None,
            i <= cs@.len(),
            forall|k: int| 0 <= k < i ==> call_values_ok(*target, #[trigger] cs@[k]),
        decreases cs.len() - i,
    {
        if !call_ready(target, &cs[i]) {
            proof {
                assert(!call_values_ok(*target, conv[i as int]));
            }
            return Err(ParseErrorKind::NoRoom);
        }
        i = i + 1;
    }
    let ghost before = cs@;
    fixup(target, &mut cs);
    proof {
        let m = choose|m: Map<ResValueId, ResValueId>|
            numbering_ok(m) && forall|c: int| 0 <= c < before.len() ==> call_fixed(*target, #[trigger] before[c], cs@[c], m);
        assert(calls_of(*target, calls@, before) && numbering_ok(m) && forall|k: int|
            0 <= k < before.len() ==> call_fixed(*target, #[trigger] before[k], cs@[k], m) && call_fix_ok(
                *target,
                before[k],
                cs@[k],
                calls_state(*target, before, k as nat, fixup_start(*target)),
            ) && res_tables_ok(target.tys@, cs@[k]));
    }
    Ok(cs)
}

} // verus!

use healer::syscall::SyscallAttr;
use healer::ty::buffer::{BufferBlobType, BufferStringType};
use healer::ty::common::CommonInfo;
use healer::ty::group::{ArrayType, Field, StructType};
use healer::ty::integer::{ConstType, CsumKind, CsumType, IntFormat, IntType, LenType, ProcType};
use healer::ty::ptr::{PtrType, VmaType};
use healer::ty::{Dir, Type};

fn comm(id: usize, name: &str) -> CommonInfo {
    CommonInfo { id, name: name.to_string(), size: 4, align: 4, optional: false, varlen: false }
}

fn int_ty(id: usize, range: Option<(u64, u64)>, align: u64) -> IntType {
    IntType { comm: comm(id, "int32"), int_fmt: IntFormat::new(), range, align }
}

#[test]
fn syscall_attr_text() {
    assert_eq!(SyscallAttr::default().to_string(), "");
    let a = SyscallAttr { disabled: true, timeout: 50, prog_timeout: 0, ignore_return: true, breaks_returns: false };
    assert_eq!(a.to_string(), "disabled, timeout[50], ignore_return");
    let b = SyscallAttr { disabled: false, timeout: 0, prog_timeout: 3000, ignore_return: false, breaks_returns: true };
    assert_eq!(b.to_string(), "prog_timeout[3000], breaks_returns");
}

#[test]
fn integer_type_texts() {
    assert_eq!(int_ty(0, None, 0).to_string(), "int");
    assert_eq!(int_ty(0, Some((1, 10)), 0).to_string(), "int[1:10]");
    assert_eq!(int_ty(0, Some((0, 4096)), 8).to_string(), "int[0:4096, 8]");
    let mut bf = int_ty(0, Some((1, 2)), 0);
    bf.int_fmt.bitfield_len = 3;
    assert_eq!(bf.to_string(), "int:3");
    let c = ConstType { comm: comm(1, "c"), int_fmt: IntFormat::new(), const_val: 1234567890123, pad: false };
    assert_eq!(c.to_string(), "const[1234567890123]");
    let p = ProcType { comm: comm(2, "p"), int_fmt: IntFormat::new(), values_start: 100, values_per_proc: 4 };
    assert_eq!(p.to_string(), "proc[4, 100]");
    let l = LenType {
        comm: comm(3, "l"),
        int_fmt: IntFormat::new(),
        bit_size: 8,
        offset: false,
        path: vec!["parent".to_string(), "buf".to_string()],
    };
    assert_eq!(l.to_string(), "bytesize[parent.buf]");
    let cs = CsumType { comm: comm(4, "cs"), int_fmt: IntFormat::new(), kind: CsumKind::Pseudo, buf: "b".to_string(), protocol: 6 };
    assert_eq!(cs.to_string(), "csum[Pseudo]");
}

#[test]
fn other_type_texts() {
    assert_eq!(VmaType { comm: comm(5, "v"), range: Some((2, 2)) }.to_string(), "vma[2]");
    assert_eq!(VmaType { comm: comm(5, "v"), range: Some((1, 4)) }.to_string(), "vma[1:4]");
    assert_eq!(PtrType { comm: comm(6, "p"), elem: 17, dir: Dir::InOut }.to_string(), "ptr[InOut, 17]");
    let blob = BufferBlobType { comm: comm(7, "b"), range: None, sub_kind: None, vals: vec![], text_kind: None };
    assert_eq!(blob.to_string(), "buffer");
    let s = BufferStringType { comm: comm(8, "s"), sub_kind: None, vals: vec![], noz: true, is_glob: false };
    assert_eq!(s.to_string(), "stringnoz");
    let arr = ArrayType { comm: comm(9, "a"), elem: Box::new(Type::Int(int_ty(10, None, 0))), range: Some((0, 8)) };
    assert_eq!(arr.to_string(), "array[int, 0:8]");
    let st = StructType {
        comm: comm(11, "pair"),
        fields: vec![Field::new("x".to_string(), Type::Int(int_ty(12, None, 0))), Field::new("y".to_string(), Type::Int(int_ty(13, None, 0)))],
        align_attr: 0,
    };
    assert_eq!(st.to_string(), "struct pair {x: int32, y: int32}");
    assert_eq!(Type::Struct(st).to_string(), "struct pair {x: int32, y: int32}");
}

use healer::parse::{
    convert_call, convert_prog, parse_prog, convert_value, decode_readable_data, parse_addr, AddrNode, BadEncodeError,
    BadPtrAddrError, CallNode, DataNode, ParseErrorKind, PointeeNode, ResNode, TypeValueNotMatchError,
    ValueNode, ValueShape,
};
use healer::syscall::{Syscall, SyscallAttr};
use healer::target::{Target, TargetBuilder};
use healer::ty::buffer::BufferBlobType;
use healer::ty::common::CommonInfo;
use healer::ty::group::{ArrayType, Field, StructType, UnionType};
use healer::ty::integer::{ConstType, IntFormat, IntType};
use healer::ty::ptr::{PtrType, VmaType};
use healer::ty::{Dir, Type, TypeKind};
use healer::value::{ResValueKind, Value, ValueKindInner, ENCODING_ADDR_BASE};

fn comm(id: usize, name: &str, size: u64, varlen: bool) -> CommonInfo {
    CommonInfo { id, name: name.to_string(), size, align: 1, optional: false, varlen }
}

fn int_ty(id: usize) -> Type {
    Type::Int(IntType { comm: comm(id, "int32", 4, false), int_fmt: IntFormat::new(), range: None, align: 0 })
}

fn pad_ty(id: usize) -> Type {
    Type::Const(ConstType { comm: comm(id, "pad", 4, false), int_fmt: IntFormat::new(), const_val: 0, pad: true })
}

fn test_target() -> Target {
    let tys = vec![
        int_ty(0),
        Type::Ptr(PtrType { comm: comm(1, "ptr", 8, false), elem: 0, dir: Dir::In }),
        Type::Vma(VmaType { comm: comm(2, "vma", 8, false), range: None }),
        Type::BufferBlob(BufferBlobType {
            comm: comm(3, "blob", 0, true),
            range: None,
            sub_kind: None,
            vals: vec![],
            text_kind: None,
        }),
        Type::Struct(StructType {
            comm: comm(4, "st", 12, false),
            fields: vec![
                Field::new("a".to_string(), int_ty(5)),
                Field::new("pad".to_string(), pad_ty(6)),
                Field::new("b".to_string(), int_ty(7)),
            ],
            align_attr: 0,
        }),
        Type::Array(ArrayType { comm: comm(8, "arr", 8, false), elem: Box::new(int_ty(9)), range: Some((2, 2)) }),
        Type::Union(UnionType {
            comm: comm(10, "un", 4, false),
            fields: vec![Field::new("a".to_string(), int_ty(11)), Field::new("b".to_string(), int_ty(12))],
        }),
    ];
    let foo = Syscall {
        id: 0,
        nr: 1,
        name: "foo".to_string(),
        call_name: "foo".to_string(),
        missing_args: 0,
        params: vec![Field::new("x".to_string(), int_ty(0)), Field::new("p".to_string(), ty_of(&tys, 1))],
        ret: None,
        attr: SyscallAttr::default(),
    };
    let mut b = TargetBuilder::new();
    b.os = Some("linux".to_string());
    b.arch = Some("amd64".to_string());
    b.ptr_sz = Some(8);
    b.page_sz = Some(4096);
    b.page_num = Some(16);
    b.revision = Some("r1".to_string());
    b.special_ptrs = vec![0, 0xffff_ffff_ffff_ffff];
    b.syscalls = vec![foo];
    b.tys = tys;
    b.build()
}

fn ty_of(tys: &[Type], id: usize) -> Type {
    match &tys[id] {
        Type::Ptr(p) => Type::Ptr(PtrType { comm: p.comm.clone(), elem: p.elem, dir: p.dir }),
        _ => panic!("not a pointer"),
    }
}

fn int_of(v: &Value) -> u64 {
    match &v.inner {
        ValueKindInner::IntegerValue(i) => i.val,
        _ => panic!("not an integer"),
    }
}

#[test]
fn decode_plain_and_escapes() {
    assert_eq!(decode_readable_data(b"abc"), Ok(b"abc".to_vec()));
    assert_eq!(decode_readable_data(b"a\\x41b"), Ok(b"aAb".to_vec()));
    assert_eq!(decode_readable_data(b"\\n\\t\\\\\\'\\\""), Ok(vec![10, 9, 92, 39, 34]));
    assert_eq!(decode_readable_data(b"\\xfF"), Ok(vec![0xff]));
    assert_eq!(decode_readable_data(b""), Ok(vec![]));
}

#[test]
fn decode_bad_escapes() {
    assert_eq!(decode_readable_data(b"\\q"), Err(BadEncodeError));
    assert_eq!(decode_readable_data(b"\\x4"), Err(BadEncodeError));
    assert_eq!(decode_readable_data(b"\\xg0"), Err(BadEncodeError));
    assert_eq!(decode_readable_data(b"ab\\"), Err(BadEncodeError));
}

#[test]
fn decode_pointer_address() {
    assert_eq!(parse_addr(ENCODING_ADDR_BASE + 5), Ok(5));
    assert_eq!(parse_addr(ENCODING_ADDR_BASE), Ok(0));
    assert_eq!(parse_addr(3), Err(BadPtrAddrError));
}

#[test]
fn int_values_by_type() {
    let t = test_target();
    let v = convert_value(&t, &t.tys[0], Dir::In, &ValueNode::Int(42)).unwrap();
    assert_eq!(int_of(&v), 42);
    assert_eq!(v.comm.ty_id, 0);
    // -1 selects the second special pointer
    let p = convert_value(&t, &t.tys[1], Dir::In, &ValueNode::Int(u64::MAX)).unwrap();
    match &p.inner {
        ValueKindInner::PtrValue(pv) => {
            assert_eq!(pv.addr, u64::MAX);
            assert!(pv.pointee.is_none());
        },
        _ => panic!("not a pointer"),
    }
    let e = convert_value(&t, &t.tys[3], Dir::In, &ValueNode::Int(1));
    assert!(matches!(
        e,
        Err(ParseErrorKind::TypeValueNotMatch(TypeValueNotMatchError { shape: ValueShape::Int, got: TypeKind::BufferBlob }))
    ));
}

#[test]
fn data_values() {
    let t = test_target();
    let node = ValueNode::Data(DataNode::Readable(b"ab\\x00".to_vec()), None);
    let v = convert_value(&t, &t.tys[3], Dir::In, &node).unwrap();
    match &v.inner {
        ValueKindInner::DataValue(d) => assert_eq!(d.data, vec![97, 98, 0]),
        _ => panic!("not data"),
    }
    let node = ValueNode::Data(DataNode::NonReadable(b"0aFF".to_vec()), Some(4));
    let v = convert_value(&t, &t.tys[3], Dir::In, &node).unwrap();
    match &v.inner {
        ValueKindInner::DataValue(d) => assert_eq!(d.data, vec![0x0a, 0xff, 0, 0]),
        _ => panic!("not data"),
    }
    let node = ValueNode::Data(DataNode::Readable(b"xyz".to_vec()), Some(9));
    let v = convert_value(&t, &t.tys[3], Dir::Out, &node).unwrap();
    match &v.inner {
        ValueKindInner::DataValue(d) => {
            assert!(d.data.is_empty());
            assert_eq!(d.size, 9);
        },
        _ => panic!("not data"),
    }
    let bad = ValueNode::Data(DataNode::NonReadable(b"abc".to_vec()), None);
    assert_eq!(convert_value(&t, &t.tys[3], Dir::In, &bad).err(), Some(ParseErrorKind::BadHex));
    let bad = ValueNode::Data(DataNode::Readable(b"\\z".to_vec()), None);
    assert_eq!(convert_value(&t, &t.tys[3], Dir::In, &bad).err(), Some(ParseErrorKind::BadEncode));
}

#[test]
fn vma_values_are_page_aligned_and_fit() {
    let t = test_target();
    let v = convert_value(&t, &t.tys[2], Dir::In, &ValueNode::Vma(ENCODING_ADDR_BASE + 5000, 3000)).unwrap();
    match &v.inner {
        ValueKindInner::VmaValue(m) => {
            assert_eq!(m.addr, 4096);
            assert_eq!(m.vma_size, 4096);
        },
        _ => panic!("not a vma"),
    }
    let v = convert_value(&t, &t.tys[2], Dir::In, &ValueNode::Vma(ENCODING_ADDR_BASE + 65536, 1 << 20)).unwrap();
    match &v.inner {
        ValueKindInner::VmaValue(m) => {
            assert_eq!(m.vma_size, 65536);
            assert_eq!(m.addr, 0);
        },
        _ => panic!("not a vma"),
    }
    let e = convert_value(&t, &t.tys[2], Dir::In, &ValueNode::Vma(10, 4096));
    assert_eq!(e.err(), Some(ParseErrorKind::BadPtrAddr));
}

#[test]
fn pointer_values() {
    let t = test_target();
    let node = ValueNode::Ptr(AddrNode::Int(ENCODING_ADDR_BASE + 64), Some(PointeeNode::Value(Box::new(ValueNode::Int(7)))));
    let v = convert_value(&t, &t.tys[1], Dir::In, &node).unwrap();
    match &v.inner {
        ValueKindInner::PtrValue(p) => {
            assert_eq!(p.addr, 64);
            assert_eq!(int_of(p.pointee.as_ref().unwrap()), 7);
        },
        _ => panic!("not a pointer"),
    }
    let node = ValueNode::Ptr(AddrNode::Auto, None);
    let v = convert_value(&t, &t.tys[1], Dir::In, &node).unwrap();
    match &v.inner {
        ValueKindInner::PtrValue(p) => {
            assert_eq!(p.addr, 0);
            assert_eq!(int_of(p.pointee.as_ref().unwrap()), 0);
        },
        _ => panic!("not a pointer"),
    }
    let node = ValueNode::Ptr(AddrNode::Auto, Some(PointeeNode::Nil));
    let v = convert_value(&t, &t.tys[1], Dir::In, &node).unwrap();
    match &v.inner {
        ValueKindInner::PtrValue(p) => assert!(p.pointee.is_none()),
        _ => panic!("not a pointer"),
    }
}

#[test]
fn struct_values_skip_padding_and_fill_defaults() {
    let t = test_target();
    let v = convert_value(&t, &t.tys[4], Dir::In, &ValueNode::Struct(vec![ValueNode::Int(1)])).unwrap();
    match &v.inner {
        ValueKindInner::GroupValue(g) => {
            assert_eq!(g.inner.len(), 3);
            assert_eq!(int_of(&g.inner[0]), 1);
            assert_eq!(int_of(&g.inner[1]), 0);
            assert_eq!(int_of(&g.inner[2]), 0);
        },
        _ => panic!("not a group"),
    }
    let v = convert_value(&t, &t.tys[4], Dir::In, &ValueNode::Struct(vec![ValueNode::Int(1), ValueNode::Int(2)])).unwrap();
    match &v.inner {
        ValueKindInner::GroupValue(g) => assert_eq!(int_of(&g.inner[2]), 2),
        _ => panic!("not a group"),
    }
    let too_many = ValueNode::Struct(vec![ValueNode::Int(1), ValueNode::Int(2), ValueNode::Auto]);
    assert_eq!(
        convert_value(&t, &t.tys[4], Dir::In, &too_many).err(),
        Some(ParseErrorKind::TypeValueNotMatch(TypeValueNotMatchError { shape: ValueShape::Auto, got: TypeKind::Struct }))
    );
}

#[test]
fn fixed_arrays_are_padded_or_cut() {
    let t = test_target();
    let v = convert_value(&t, &t.tys[5], Dir::In, &ValueNode::Array(vec![ValueNode::Int(7)])).unwrap();
    match &v.inner {
        ValueKindInner::GroupValue(g) => {
            assert_eq!(g.inner.len(), 2);
            assert_eq!(int_of(&g.inner[0]), 7);
            assert_eq!(int_of(&g.inner[1]), 0);
        },
        _ => panic!("not a group"),
    }
    let three = ValueNode::Array(vec![ValueNode::Int(1), ValueNode::Int(2), ValueNode::Int(3)]);
    let v = convert_value(&t, &t.tys[5], Dir::In, &three).unwrap();
    match &v.inner {
        ValueKindInner::GroupValue(g) => assert_eq!(g.inner.len(), 2),
        _ => panic!("not a group"),
    }
}

#[test]
fn union_values_by_option_name() {
    let t = test_target();
    let v = convert_value(&t, &t.tys[6], Dir::In, &ValueNode::Union("b".to_string(), Some(Box::new(ValueNode::Int(5))))).unwrap();
    match &v.inner {
        ValueKindInner::UnionValue(u) => {
            assert_eq!(u.index, 1);
            assert_eq!(int_of(&u.option), 5);
        },
        _ => panic!("not a union"),
    }
    let e = convert_value(&t, &t.tys[6], Dir::In, &ValueNode::Union("c".to_string(), None));
    assert_eq!(e.err(), Some(ParseErrorKind::UnionOptionNotExists));
}

#[test]
fn resource_values() {
    let t = test_target();
    let e = convert_value(&t, &t.tys[0], Dir::In, &ValueNode::Res(ResNode::Out { id: 3, val: None }));
    assert_eq!(
        e.err(),
        Some(ParseErrorKind::TypeValueNotMatch(TypeValueNotMatchError { shape: ValueShape::Res, got: TypeKind::Int }))
    );
}

#[test]
fn calls_fill_missing_arguments() {
    let t = test_target();
    let call = CallNode { ret: None, name: "foo".to_string(), args: vec![ValueNode::Int(3)] };
    let pc = convert_call(&t, &call).unwrap();
    assert_eq!(pc.sid, 0);
    assert_eq!(pc.args.len(), 2);
    assert_eq!(int_of(&pc.args[0]), 3);
    assert!(matches!(pc.args[1].inner, ValueKindInner::PtrValue(_)));
    assert!(pc.ret.is_none());

    let unknown = CallNode { ret: None, name: "bar".to_string(), args: vec![] };
    assert_eq!(convert_call(&t, &unknown).err(), Some(ParseErrorKind::CallNotExists));
    let too_many = CallNode {
        ret: None,
        name: "foo".to_string(),
        args: vec![ValueNode::Int(1), ValueNode::Ptr(AddrNode::Auto, None), ValueNode::Int(2)],
    };
    assert_eq!(convert_call(&t, &too_many).err(), Some(ParseErrorKind::PrototypeNotMatch));
}

#[test]
fn programs_need_calls() {
    let t = test_target();
    assert_eq!(convert_prog(&t, &vec![]).err(), Some(ParseErrorKind::NoCalls));
    let calls = vec![
        CallNode { ret: None, name: "foo".to_string(), args: vec![] },
        CallNode { ret: None, name: "foo".to_string(), args: vec![ValueNode::Int(9)] },
    ];
    let p = convert_prog(&t, &calls).unwrap();
    assert_eq!(p.len(), 2);
    assert_eq!(int_of(&p[1].args[0]), 9);
    let _ = ResValueKind::Null;
}

#[test]
fn parsed_programs_are_fixed_up() {
    let t = test_target();
    let calls = vec![CallNode {
        ret: None,
        name: "foo".to_string(),
        args: vec![ValueNode::Int(1), ValueNode::Ptr(AddrNode::Int(ENCODING_ADDR_BASE + 3), None)],
    }];
    let p = parse_prog(&t, &calls).unwrap();
    match &p[0].args[1].inner {
        ValueKindInner::PtrValue(pv) => {
            assert_eq!(pv.addr % 64, 0);
            assert!(pv.addr + 64 <= 4096 * 16);
        },
        _ => panic!("not a pointer"),
    }
    assert_eq!(parse_prog(&t, &vec![]).err(), Some(ParseErrorKind::NoCalls));
}

#[test]
fn decode_gives_back_escaped_bytes() {
    let bytes: Vec<u8> = vec![0, b'\n', b'a', b'\\', 0xff, b'"', b'\r', 0x7f, b'\'', b'\t', b' ', 0x80];
    let written: Vec<u8> = bytes.iter().copied().flat_map(std::ascii::escape_default).collect();
    assert_eq!(written, b"\\x00\\na\\\\\\xff\\\"\\r\\x7f\\'\\t \\x80".to_vec());
    assert_eq!(decode_readable_data(&written), Ok(bytes));
}

use healer::mutation::fixup::fixup;
use healer::mutation::seq::mapping_res_id;
use healer::parse::ParsedCall;
use healer::target::{Target, TargetBuilder};
use healer::ty::common::CommonInfo;
use healer::ty::integer::{IntFormat, IntType};
use healer::ty::ptr::PtrType;
use healer::ty::res::ResType;
use healer::ty::{BinaryFormat, Dir, Type};
use healer::value::{IntegerValue, PtrValue, ResValue, ResValueKind, Value, ValueKindInner};

fn comm(id: usize, name: &str, size: u64, align: u64) -> CommonInfo {
    CommonInfo { id, name: name.to_string(), size, align, optional: false, varlen: false }
}

fn target() -> Target {
    let mut b = TargetBuilder::new();
    b.os = Some("linux".to_string());
    b.arch = Some("amd64".to_string());
    b.ptr_sz = Some(8);
    b.page_sz = Some(4096);
    b.page_num = Some(16);
    b.revision = Some("r1".to_string());
    b.special_ptrs = vec![0];
    b.res_kinds = vec!["fd".to_string()];
    b.tys = vec![
        Type::Int(IntType { comm: comm(0, "int64", 8, 8), int_fmt: IntFormat::new(), range: None, align: 0 }),
        Type::Ptr(PtrType { comm: comm(1, "ptr", 8, 8), elem: 0, dir: Dir::In }),
        Type::Res(ResType {
            comm: comm(2, "fd", 4, 4),
            bin_fmt: BinaryFormat::Native,
            name: "fd".to_string(),
            kinds: vec!["fd".to_string()],
            vals: vec![],
        }),
    ];
    b.build()
}

fn call(args: Vec<Value>, ret: Option<Value>) -> ParsedCall {
    ParsedCall { sid: 0, args, ret, generated_res: vec![], used_res: vec![] }
}

fn own(id: usize) -> Value {
    Value::from_res(ResValue::new_res(2, id, 0))
}

fn used(id: usize) -> Value {
    Value::from_res(ResValue::new_ref(2, Dir::In, id))
}

fn res_kind(v: &Value) -> ResValueKind {
    match &v.inner {
        ValueKindInner::ResValue(r) => r.kind,
        _ => panic!("not a resource"),
    }
}

#[test]
fn resources_renumbered_in_order_and_pointers_placed() {
    let t = target();
    let ptr = Value::from_ptr(PtrValue::new(1, Dir::In, 12345, Value::from_int(IntegerValue::new(0, Dir::In, 5))));
    let mut calls = vec![
        call(vec![own(7), ptr, used(7), used(9)], Some(own(3))),
        call(vec![used(3), own(7)], None),
    ];
    fixup(&t, &mut calls);
    assert_eq!(res_kind(&calls[0].args[0]), ResValueKind::Own(0));
    assert_eq!(res_kind(&calls[0].args[2]), ResValueKind::Ref(0));
    assert_eq!(res_kind(&calls[0].args[3]), ResValueKind::Ref(9));
    assert_eq!(res_kind(calls[0].ret.as_ref().unwrap()), ResValueKind::Own(1));
    assert_eq!(res_kind(&calls[1].args[0]), ResValueKind::Ref(1));
    assert_eq!(res_kind(&calls[1].args[1]), ResValueKind::Own(0));
    assert_eq!(calls[0].generated_res, vec![("fd".to_string(), vec![0, 1])]);
    assert_eq!(calls[0].used_res, vec![("fd".to_string(), vec![0, 9])]);
    assert_eq!(calls[1].generated_res, vec![("fd".to_string(), vec![0])]);
    assert_eq!(calls[1].used_res, vec![("fd".to_string(), vec![1])]);
    match &calls[0].args[1].inner {
        ValueKindInner::PtrValue(p) => {
            assert_eq!(p.addr % 64, 0);
            assert!(p.addr + 64 <= 4096 * 16);
            assert_ne!(p.addr, 12345);
        },
        _ => panic!("not a pointer"),
    }
}

#[test]
fn pointers_without_pointee_keep_their_address() {
    let t = target();
    let mut calls = vec![call(vec![Value::from_ptr(PtrValue::new_special(1, Dir::In, 0))], None)];
    fixup(&t, &mut calls);
    match &calls[0].args[0].inner {
        ValueKindInner::PtrValue(p) => assert_eq!(p.addr, 0),
        _ => panic!("not a pointer"),
    }
}

fn addr(v: &Value) -> u64 {
    match &v.inner {
        ValueKindInner::PtrValue(p) => p.addr,
        _ => panic!("not a pointer"),
    }
}

fn int_ptr(addr: u64) -> Value {
    Value::from_ptr(PtrValue::new(1, Dir::In, addr, Value::from_int(IntegerValue::new(0, Dir::In, 5))))
}

#[test]
fn pointers_placed_in_order_and_fixup_again_changes_nothing() {
    let t = target();
    let mut calls = vec![
        call(vec![int_ptr(999), own(5), used(4)], None),
        call(vec![used(5), int_ptr(7), own(4)], Some(own(5))),
    ];
    fixup(&t, &mut calls);
    assert_eq!(addr(&calls[0].args[0]), 0);
    assert_eq!(addr(&calls[1].args[1]), 64);
    let kinds = |cs: &Vec<ParsedCall>| {
        vec![
            res_kind(&cs[0].args[1]),
            res_kind(&cs[0].args[2]),
            res_kind(&cs[1].args[0]),
            res_kind(&cs[1].args[2]),
            res_kind(cs[1].ret.as_ref().unwrap()),
        ]
    };
    assert_eq!(
        kinds(&calls),
        vec![ResValueKind::Own(0), ResValueKind::Ref(4), ResValueKind::Ref(0), ResValueKind::Own(1), ResValueKind::Own(0)]
    );
    let first = kinds(&calls);
    fixup(&t, &mut calls);
    assert_eq!(kinds(&calls), first);
    assert_eq!(addr(&calls[0].args[0]), 0);
    assert_eq!(addr(&calls[1].args[1]), 64);
}

#[test]
fn resource_ids_move_past_those_in_use() {
    let t = target();
    let mut calls = vec![call(vec![own(7), used(7), used(9)], Some(own(3)))];
    fixup(&t, &mut calls);
    mapping_res_id(10, &mut calls);
    assert_eq!(res_kind(&calls[0].args[0]), ResValueKind::Own(10));
    assert_eq!(res_kind(&calls[0].args[1]), ResValueKind::Ref(10));
    assert_eq!(res_kind(&calls[0].args[2]), ResValueKind::Ref(19));
    assert_eq!(res_kind(calls[0].ret.as_ref().unwrap()), ResValueKind::Own(11));
    assert_eq!(calls[0].generated_res, vec![("fd".to_string(), vec![10, 11])]);
    assert_eq!(calls[0].used_res, vec![("fd".to_string(), vec![10, 19])]);
}

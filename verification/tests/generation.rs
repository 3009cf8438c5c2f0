use healer::context::Context;
use healer::gen::group::{gen_array, gen_struct, gen_ty_value, gen_union};
use healer::gen::res::gen_res;
use healer::mutation::call::select_call;
use healer::mutation::res_ctx::restore_res_ctx;
use healer::mutation::value::{mutate_array, mutate_res, mutate_union, mutate_value};
use healer::parse::ParsedCall;
use healer::target::{Target, TargetBuilder};
use healer::ty::common::CommonInfo;
use healer::ty::group::{ArrayType, Field, StructType, UnionType};
use healer::ty::integer::{ConstType, IntFormat, IntType};
use healer::ty::res::ResType;
use healer::ty::{BinaryFormat, Dir, Type};
use healer::value::{GroupValue, IntegerValue, ResValue, ResValueKind, UnionValue, Value, ValueKindInner};
use rand::rngs::SmallRng;
use rand::SeedableRng;

fn comm(id: usize, name: &str, size: u64, align: u64) -> CommonInfo {
    CommonInfo { id, name: name.to_string(), size, align, optional: false, varlen: false }
}

fn int_ty() -> Type {
    Type::Int(IntType { comm: comm(0, "int64", 8, 8), int_fmt: IntFormat::new(), range: None, align: 0 })
}

fn fd_ty() -> Type {
    Type::Res(ResType {
        comm: comm(1, "fd", 4, 4),
        bin_fmt: BinaryFormat::Native,
        name: "fd".to_string(),
        kinds: vec!["fd".to_string()],
        vals: vec![0xffff_ffff_ffff_ffff],
    })
}

fn array_ty() -> Type {
    Type::Array(ArrayType { comm: comm(2, "array", 0, 8), elem: Box::new(int_ty()), range: Some((2, 4)) })
}

fn struct_ty() -> Type {
    Type::Struct(StructType {
        comm: comm(3, "pair", 12, 8),
        fields: vec![
            Field { name: "a".to_string(), ty: Box::new(int_ty()), dir: None },
            Field { name: "b".to_string(), ty: Box::new(fd_ty()), dir: Some(Dir::Out) },
        ],
        align_attr: 0,
    })
}

fn union_ty() -> Type {
    Type::Union(UnionType {
        comm: comm(4, "either", 8, 8),
        fields: vec![
            Field { name: "x".to_string(), ty: Box::new(int_ty()), dir: None },
            Field { name: "y".to_string(), ty: Box::new(int_ty()), dir: None },
        ],
    })
}

fn const_ty() -> Type {
    Type::Const(ConstType { comm: comm(5, "const", 8, 8), int_fmt: IntFormat::new(), const_val: 7, pad: false })
}

fn target() -> Target {
    let mut b = TargetBuilder::new();
    b.os = Some("linux".to_string());
    b.arch = Some("amd64".to_string());
    b.ptr_sz = Some(8);
    b.page_sz = Some(4096);
    b.page_num = Some(16);
    b.revision = Some("r1".to_string());
    b.special_ptrs = vec![0];
    b.res_kinds = vec!["fd".to_string()];
    b.tys = vec![int_ty(), fd_ty(), array_ty(), struct_ty(), union_ty(), const_ty()];
    b.build()
}

fn ctx() -> Context {
    Context::new(4096, 16)
}

fn int_val(ty: usize, v: u64) -> Value {
    Value::from_int(IntegerValue::new(ty, Dir::In, v))
}

fn res_kind(v: &Value) -> ResValueKind {
    match &v.inner {
        ValueKindInner::ResValue(r) => r.kind,
        _ => panic!("not a resource"),
    }
}

#[test]
fn context_hands_out_ids_and_records_resources() {
    let mut c = ctx();
    assert_eq!(c.peek_res_id(), 0);
    assert_eq!(c.next_res_id(), 0);
    assert_eq!(c.next_res_id(), 1);
    assert_eq!(c.peek_res_id(), 2);
    c.record_res(0, 5);
    c.record_res(0, 7);
    assert_eq!(c.res(), &[0]);
    assert_eq!(c.res_ids_of(0), &[5, 7]);
    assert!(c.res_ids_of(1).is_empty());
}

#[test]
fn context_records_each_filename_once() {
    let mut c = ctx();
    assert!(c.record_filename(&b"./file1".to_vec()));
    assert!(c.record_filename(&b"./file0".to_vec()));
    assert!(!c.record_filename(&b"./file1".to_vec()));
    assert_eq!(c.filenames(), &vec![b"./file0".to_vec(), b"./file1".to_vec()]);
    c.record_str(b"abc".to_vec());
    assert_eq!(c.strs(), &vec![b"abc".to_vec()]);
}

#[test]
fn output_resources_take_the_next_id() {
    let t = target();
    let mut c = ctx();
    let mut rng = SmallRng::seed_from_u64(1);
    let v = gen_res(&mut c, &t, &mut rng, &t.tys[1], Dir::Out);
    assert_eq!(res_kind(&v), ResValueKind::Own(0));
    let v = gen_res(&mut c, &t, &mut rng, &t.tys[1], Dir::Out);
    assert_eq!(res_kind(&v), ResValueKind::Own(1));
    assert_eq!(c.res_ids_of(0), &[0, 1]);
    assert_eq!(c.peek_res_id(), 2);
}

#[test]
fn input_resources_reuse_an_output_or_take_a_special_value() {
    let t = target();
    let mut c = ctx();
    let mut rng = SmallRng::seed_from_u64(2);
    for _ in 0..50 {
        let v = gen_res(&mut c, &t, &mut rng, &t.tys[1], Dir::In);
        match &v.inner {
            ValueKindInner::ResValue(r) => {
                assert_eq!(r.kind, ResValueKind::Null);
                assert_eq!(r.val, 0xffff_ffff_ffff_ffff);
            }
            _ => panic!("not a resource"),
        }
    }
    let _ = gen_res(&mut c, &t, &mut rng, &t.tys[1], Dir::Out);
    let mut reused = 0;
    for _ in 0..50 {
        let v = gen_res(&mut c, &t, &mut rng, &t.tys[1], Dir::In);
        match res_kind(&v) {
            ResValueKind::Ref(id) => {
                assert_eq!(id, 0);
                reused += 1;
            }
            ResValueKind::Null => {}
            ResValueKind::Own(_) => panic!("an input owns no resource"),
        }
    }
    assert!(reused > 0);
    assert_eq!(c.peek_res_id(), 1);
}

#[test]
fn arrays_are_generated_within_their_range() {
    let t = target();
    let mut c = ctx();
    let mut rng = SmallRng::seed_from_u64(3);
    for _ in 0..30 {
        let v = gen_array(&mut c, &t, &mut rng, &t.tys[2], Dir::In);
        assert_eq!(v.comm.ty_id, 2);
        match &v.inner {
            ValueKindInner::GroupValue(g) => {
                assert!(2 <= g.inner.len() && g.inner.len() <= 4);
                for e in &g.inner {
                    assert!(matches!(e.inner, ValueKindInner::IntegerValue(_)));
                }
            }
            _ => panic!("not a group"),
        }
    }
}

#[test]
fn structs_get_one_member_per_field_in_its_direction() {
    let t = target();
    let mut c = ctx();
    let mut rng = SmallRng::seed_from_u64(4);
    let v = gen_struct(&mut c, &t, &mut rng, &t.tys[3], Dir::In);
    match &v.inner {
        ValueKindInner::GroupValue(g) => {
            assert_eq!(g.inner.len(), 2);
            assert!(matches!(g.inner[0].inner, ValueKindInner::IntegerValue(_)));
            assert_eq!(g.inner[1].comm.dir, Dir::Out);
            assert_eq!(res_kind(&g.inner[1]), ResValueKind::Own(0));
        }
        _ => panic!("not a group"),
    }
    assert_eq!(c.res_ids_of(0), &[0]);
}

#[test]
fn unions_pick_one_of_their_fields() {
    let t = target();
    let mut c = ctx();
    let mut rng = SmallRng::seed_from_u64(5);
    for _ in 0..20 {
        let v = gen_union(&mut c, &t, &mut rng, &t.tys[4], Dir::In);
        match &v.inner {
            ValueKindInner::UnionValue(u) => {
                assert!(u.index < 2);
                assert_eq!(u.option.comm.ty_id, 0);
            }
            _ => panic!("not a union"),
        }
    }
    let v = gen_ty_value(&mut c, &t, &mut rng, &t.tys[0], Dir::Out);
    assert!(matches!(v.inner, ValueKindInner::IntegerValue(IntegerValue { val: 0, .. })));
}

#[test]
fn unions_switch_to_another_field() {
    let t = target();
    let mut c = ctx();
    let mut rng = SmallRng::seed_from_u64(6);
    for _ in 0..20 {
        let mut v = Value::from_union(UnionValue::new(4, Dir::In, 0, int_val(0, 3)));
        assert!(mutate_union(&mut c, &t, &mut rng, &mut v));
        match &v.inner {
            ValueKindInner::UnionValue(u) => assert_eq!(u.index, 1),
            _ => panic!("not a union"),
        }
    }
}

#[test]
fn arrays_change_length_within_their_range() {
    let t = target();
    let mut c = ctx();
    let mut rng = SmallRng::seed_from_u64(7);
    for _ in 0..20 {
        let mut v = Value::from_group(GroupValue::new(2, Dir::In, vec![int_val(0, 1), int_val(0, 2), int_val(0, 3)]));
        assert!(mutate_array(&mut c, &t, &mut rng, &mut v));
        match &v.inner {
            ValueKindInner::GroupValue(g) => {
                let n = g.inner.len();
                assert!(n == 2 || n == 4);
                assert!(matches!(g.inner[0].inner, ValueKindInner::IntegerValue(IntegerValue { val: 1, .. })));
                assert!(matches!(g.inner[1].inner, ValueKindInner::IntegerValue(IntegerValue { val: 2, .. })));
            }
            _ => panic!("not a group"),
        }
    }
}

#[test]
fn output_resources_are_not_mutated() {
    let t = target();
    let mut c = ctx();
    let mut rng = SmallRng::seed_from_u64(8);
    let mut v = Value::from_res(ResValue::new_res(1, 0, 0xffff_ffff_ffff_ffff));
    assert!(!mutate_res(&mut c, &t, &mut rng, &mut v));
    assert_eq!(res_kind(&v), ResValueKind::Own(0));
}

#[test]
fn values_are_mutated_by_their_kind() {
    let t = target();
    let mut c = ctx();
    let mut rng = SmallRng::seed_from_u64(9);
    let mut k = Value::from_int(IntegerValue::new(5, Dir::In, 7));
    assert!(!mutate_value(&mut c, &t, &mut rng, &mut k));
    assert!(matches!(k.inner, ValueKindInner::IntegerValue(IntegerValue { val: 7, .. })));
    let mut s = Value::from_group(GroupValue::new(3, Dir::In, vec![int_val(0, 1), int_val(1, 2)]));
    assert!(!mutate_value(&mut c, &t, &mut rng, &mut s));
    let mut u = Value::from_union(UnionValue::new(4, Dir::In, 1, int_val(0, 3)));
    assert!(mutate_value(&mut c, &t, &mut rng, &mut u));
    assert!(matches!(&u.inner, ValueKindInner::UnionValue(x) if x.index == 0));
    let mut changed = false;
    for _ in 0..20 {
        let mut i = int_val(0, 100);
        if mutate_value(&mut c, &t, &mut rng, &mut i) {
            assert!(!matches!(i.inner, ValueKindInner::IntegerValue(IntegerValue { val: 100, .. })));
            changed = true;
        }
    }
    assert!(changed);
}

#[test]
fn calls_are_selected_by_their_arguments() {
    let t = target();
    let mut rng = SmallRng::seed_from_u64(10);
    let fixed = ParsedCall {
        sid: 0,
        args: vec![Value::from_int(IntegerValue::new(5, Dir::In, 7))],
        ret: None,
        generated_res: vec![],
        used_res: vec![],
    };
    let calls = vec![fixed];
    assert_eq!(select_call(&t, &mut rng, &calls), None);
    let open = ParsedCall { sid: 0, args: vec![int_val(0, 1)], ret: None, generated_res: vec![], used_res: vec![] };
    let fixed = ParsedCall {
        sid: 0,
        args: vec![Value::from_int(IntegerValue::new(5, Dir::In, 7))],
        ret: None,
        generated_res: vec![],
        used_res: vec![],
    };
    let calls = vec![fixed, open];
    for _ in 0..20 {
        assert_eq!(select_call(&t, &mut rng, &calls), Some(1));
    }
}

#[test]
fn resources_of_earlier_calls_are_restored() {
    let t = target();
    let own = |id: usize| Value::from_res(ResValue::new_res(1, id, 0));
    let used = |id: usize| Value::from_res(ResValue::new_ref(1, Dir::In, id));
    let calls = vec![
        ParsedCall { sid: 0, args: vec![own(3), int_val(0, 1)], ret: None, generated_res: vec![], used_res: vec![] },
        ParsedCall { sid: 0, args: vec![used(3)], ret: Some(own(5)), generated_res: vec![], used_res: vec![] },
    ];
    let mut c = ctx();
    restore_res_ctx(&mut c, &t, &calls, 0);
    assert!(c.res().is_empty());
    restore_res_ctx(&mut c, &t, &calls, 1);
    assert_eq!(c.res(), &[0]);
    assert_eq!(c.res_ids_of(0), &[3]);
    let mut c = ctx();
    restore_res_ctx(&mut c, &t, &calls, 2);
    assert_eq!(c.res_ids_of(0), &[3, 5]);
    assert_eq!(c.peek_res_id(), 0);
}

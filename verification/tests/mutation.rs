use healer::mutation::call::contains_out_res;
use healer::mutation::group::mutate_struct;
use healer::mutation::ptr::mutate_ptr;
use healer::ty::Dir;
use healer::value::{GroupValue, IntegerValue, PtrValue, ResValue, Value, ValueKindInner};
use rand::rngs::SmallRng;
use rand::SeedableRng;

fn int_val(v: u64) -> Value {
    Value::from_int(IntegerValue::new(0, Dir::In, v))
}

#[test]
fn output_resources_are_found_anywhere_in_a_value() {
    assert!(!contains_out_res(&int_val(1)));
    let used = Value::from_res(ResValue::new_ref(2, Dir::In, 4));
    assert!(!contains_out_res(&used));
    let produced = Value::from_res(ResValue::new_res(2, 4, 0));
    assert!(contains_out_res(&produced));
    let nested = Value::from_ptr(PtrValue::new(
        1,
        Dir::In,
        0,
        Value::from_group(GroupValue::new(3, Dir::In, vec![int_val(1), Value::from_res(ResValue::new_res(2, 5, 0))])),
    ));
    assert!(contains_out_res(&nested));
}

#[test]
fn pointers_to_output_resources_stay() {
    let mut rng = SmallRng::seed_from_u64(11);
    let mut v = Value::from_ptr(PtrValue::new(1, Dir::In, 64, Value::from_res(ResValue::new_res(2, 5, 0))));
    for _ in 0..5000 {
        assert!(!mutate_ptr(&mut rng, &mut v));
    }
    match &v.inner {
        ValueKindInner::PtrValue(p) => assert_eq!(p.addr, 64),
        _ => panic!("not a pointer"),
    }
}

#[test]
fn pointers_sometimes_become_null() {
    let mut rng = SmallRng::seed_from_u64(5);
    let mut changed = false;
    for _ in 0..100000 {
        let mut v = Value::from_ptr(PtrValue::new(1, Dir::In, 64, int_val(3)));
        if mutate_ptr(&mut rng, &mut v) {
            match &v.inner {
                ValueKindInner::PtrValue(p) => {
                    assert_eq!(p.addr, 0);
                    assert!(p.pointee.is_none());
                },
                _ => panic!("not a pointer"),
            }
            changed = true;
            break;
        }
    }
    assert!(changed);
}

#[test]
fn structs_are_left_alone() {
    let mut v = Value::from_group(GroupValue::new(3, Dir::In, vec![int_val(1)]));
    assert!(!mutate_struct(&mut v));
}

use healer::ty::Dir;
use healer::value::{encode_hex, is_readable, PtrValue, ValueCommon, VmaValue};

fn ptr_at(addr: u64) -> PtrValue {
    PtrValue { comm: ValueCommon::new(1, Dir::In), addr, pointee: None }
}

#[test]
fn special_pointers_are_the_last_fifteen_addresses() {
    assert!(ptr_at(0).is_special());
    assert!(ptr_at(0x7fff_ffff_ffff_ffff).is_special());
    assert!(ptr_at(u64::MAX).is_special());
    assert!(ptr_at(0xffff_ffff_ffff_fff1).is_special());
    assert!(!ptr_at(0xffff_ffff_ffff_fff0).is_special());
    assert!(!ptr_at(0x8000_0000_0000_0001).is_special());
    let v = VmaValue::new_special(2, Dir::In, 15);
    assert!(v.is_special());
    assert_eq!(v.addr, 0xffff_ffff_ffff_fff1);
}

#[test]
fn data_is_written_in_hex() {
    assert_eq!(encode_hex(&[]), "");
    assert_eq!(encode_hex(&[0x00, 0x7f, 0xab, 0x10]), "007fab10");
}

#[test]
fn readable_data() {
    assert!(is_readable(b"hello\n\t\x00"));
    assert!(is_readable(b""));
    assert!(!is_readable(b"abc\x80"));
    assert!(!is_readable(&[0x7f]));
}

use healer::hlang::value::{ResValue, ResValueKind};
use std::rc::Rc;
use healer::hlang::BufferKind;

#[test]
fn hello_hlang() {
    assert!(true);
}

#[test]
fn string_buffer_kinds() {
    match BufferKind::new_str(vec![b"ab".as_slice(), b"".as_slice()], true) {
        BufferKind::String { vals, noz } => {
            assert!(noz);
            assert_eq!(vals, vec![b"ab".to_vec(), vec![]]);
        },
        _ => panic!("not a string kind"),
    }
    match BufferKind::new_fname(vec!["./file0", "x"], false) {
        BufferKind::Filename { vals, noz } => {
            assert!(!noz);
            assert_eq!(vals, vec![b"./file0".to_vec(), b"x".to_vec()]);
        },
        _ => panic!("not a file name kind"),
    }
}

use healer::hlang::parse::{parse_ident, parse_integer, IdentError, IntLitError};

#[test]
fn parse_test_parse_ident() {
    assert!(parse_ident("").is_err());

    let s2 = "@";
    assert!(parse_ident(s2).is_err());

    let s1 = "_";
    assert!(parse_ident(s1).is_ok());

    let s3 = "_t_1@@@";
    let (ident, taken) = parse_ident(s3).unwrap();
    assert_eq!(ident, "_t_1");
    assert_eq!(taken, 4);
    assert_eq!(&s3[taken..], "@@@");
}

#[test]
fn parse_test_parse_integer() {
    let s1 = "test";
    assert!(parse_integer::<i32>(s1).is_err());

    let s2 = "-0";
    let (s2_number, _) = parse_integer::<i8>(s2).unwrap();
    assert_eq!(s2_number, 0);

    let s2 = "0xFFF";
    let s3 = "0xfff";
    assert_eq!(parse_integer::<u32>(s2), parse_integer::<u32>(s3));

    assert_eq!(parse_integer::<u32>("0b001").unwrap().0, parse_integer::<u32>("0b00001").unwrap().0);

    let s4 = "099";
    let (s4_number, _) = parse_integer::<u8>(s4).unwrap();
    assert_eq!(s4_number, 99);

    let s5 = "-256";
    let (s5_number, _) = parse_integer::<i16>(s5).unwrap();
    assert_eq!(s5_number, -256);
}

#[test]
fn ident_errors_and_lengths() {
    assert_eq!(parse_ident(""), Err(IdentError::Eof));
    assert_eq!(parse_ident("9abc"), Err(IdentError::BadLeading('9')));
    assert_eq!(parse_ident("abc def"), Ok(("abc".to_string(), 3)));
    assert_eq!(parse_ident("Ab_9"), Ok(("Ab_9".to_string(), 4)));
}

#[test]
fn integer_literal_edges() {
    assert_eq!(parse_integer::<u8>("255"), Ok((255, 3)));
    assert_eq!(parse_integer::<u8>("256"), Err(IntLitError::OutOfRange));
    assert_eq!(parse_integer::<i8>("-128"), Err(IntLitError::OutOfRange));
    assert_eq!(parse_integer::<i8>("-127"), Ok((-127, 4)));
    assert_eq!(parse_integer::<u32>("0o17,"), Ok((15, 4)));
    assert_eq!(parse_integer::<u32>("0x"), Err(IntLitError::NoDigits));
    assert_eq!(parse_integer::<u32>("0,"), Ok((0, 1)));
    assert_eq!(parse_integer::<u32>("0"), Ok((0, 1)));
    assert_eq!(parse_integer::<u32>("-"), Err(IntLitError::Eof));
    assert_eq!(parse_integer::<u32>(""), Err(IntLitError::Eof));
    assert_eq!(parse_integer::<u32>("-5"), Err(IntLitError::OutOfRange));
    assert_eq!(parse_integer::<i64>("12abc"), Ok((12, 2)));
    assert_eq!(parse_integer::<u64>("18446744073709551615"), Ok((u64::MAX, 20)));
    assert_eq!(parse_integer::<u64>("18446744073709551616"), Err(IntLitError::OutOfRange));
}

#[test]
fn resource_values_own_refer_or_hold_a_value() {
    let own = Rc::new(ResValue::new_res(7, 3));
    assert_eq!(own.val, 7);
    assert_eq!(own.get_res_id(), Some(3));
    assert_eq!(own.kind.get_id(), Some(3));
    assert!(own.kind.get_src().is_none());

    let r = ResValue::new_ref_res(Rc::clone(&own));
    assert_eq!((r.val, r.op_add, r.op_div), (0, 0, 0));
    assert_eq!(r.get_res_id(), None);
    assert!(Rc::ptr_eq(r.kind.get_src().unwrap(), &own));
    own.inc_ref_count_uncheck();

    let null = ResValue::new_null(u64::MAX);
    assert_eq!(null.val, u64::MAX);
    assert!(matches!(null.kind, ResValueKind::Null));
    assert_eq!(null.get_res_id(), None);
    assert!(ResValueKind::new_res_kind(9).get_src().is_none());
    assert_eq!(ResValueKind::new_res_kind(9).get_id(), Some(9));
}

use healer::hlang::parse::{parse_ident_test, parse_integer_test, parse_spec_ident};

#[test]
fn spec_grammar_identifiers() {
    assert!(parse_spec_ident("@").is_err());
    assert_eq!(parse_spec_ident("_"), Err(IdentError::LoneUnderscore));
    assert_eq!(parse_spec_ident("_test"), Ok(("_test".to_string(), 5)));
    assert_eq!(parse_spec_ident("test_1123,"), Ok(("test_1123".to_string(), 9)));
}

#[test]
fn test_entry_points_name_the_file() {
    assert_eq!(parse_ident_test("_t_1@@@").unwrap(), "_t_1");
    assert_eq!(parse_ident_test("_").unwrap(), "_");
    let e = parse_ident_test("").unwrap_err();
    assert_eq!(e.filename, "test.hl");
    assert_eq!(e.snippet, "EOF");
    assert_eq!(e.kind, IdentError::Eof);
    let e = parse_ident_test("@\nx").unwrap_err();
    assert_eq!(e.kind, IdentError::BadLeading('@'));
    assert_eq!(e.snippet, "@");
    assert_eq!(parse_integer_test::<u8>("099").unwrap(), 99);
    assert_eq!(parse_integer_test::<i16>("-256").unwrap(), -256);
    assert_eq!(parse_integer_test::<i8>("-0").unwrap(), 0);
    assert_eq!(parse_integer_test::<u32>("0xFFF").unwrap(), 4095);
    assert_eq!(parse_integer_test::<u32>("0xfff").unwrap(), 4095);
    assert_eq!(parse_integer_test::<u32>("0b001").unwrap(), 1);
    assert_eq!(parse_integer_test::<u32>("0b00001").unwrap(), 1);
    let e = parse_integer_test::<i32>("test").unwrap_err();
    assert_eq!(e.filename, "test.hl");
    assert_eq!(e.snippet, "test");
    assert_eq!(e.kind, IntLitError::NoDigits);
}

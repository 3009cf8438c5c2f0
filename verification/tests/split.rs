use healer::split::Split;

#[test]
fn split() {
    let s1 = Split::new(9, 9);
    let s2 = Split::new(10, 9);
    let s3 = Split::new(19, 3);

    assert_eq!(s1.sum(), 9);
    assert_eq!(s2.sum(), 10);
    assert_eq!(s3.sum(), 19);
}

#[test]
fn split_parts_in_order() {
    assert_eq!(Split::new(19, 3).to_vec(), vec![7, 6, 6]);
    assert_eq!(Split::new(10, 4).to_vec(), vec![3, 3, 2, 2]);
    assert_eq!(Split::new(5, 1).to_vec(), vec![5]);
}

#[test]
fn split_next_until_none() {
    let mut s = Split::new(7, 2);
    assert_eq!(s.next(), Some(4));
    assert_eq!(s.next(), Some(3));
    assert_eq!(s.next(), None);
    assert_eq!(s.next(), None);
}

use ahash::AHashSet;
use healer::feedback::Feedback;

fn set(v: &[u32]) -> AHashSet<u32> {
    v.iter().copied().collect()
}

#[test]
fn new_coverage_is_reported_once() {
    let mut f = Feedback::new();
    assert_eq!(f.max_cov_len(), 0);
    assert_eq!(f.check_max_cov(&[1, 2, 2, 3]), set(&[1, 2, 3]));
    assert_eq!(f.check_max_cov(&[2, 3, 4]), set(&[4]));
    assert_eq!(f.max_cov_len(), 4);
    // the same coverage again has nothing new
    assert!(f.check_max_cov(&[1, 2, 3, 4]).is_empty());
    assert_eq!(f.cal_cov_len(), 0);
}

#[test]
fn calibrated_coverage_is_merged_explicitly() {
    let mut f = Feedback::new();
    assert_eq!(f.check_cal_cov(&[1, 4]), set(&[1, 4]));
    assert_eq!(f.check_cal_cov(&[1, 4]), set(&[1, 4]));
    f.merge(&set(&[1]));
    assert_eq!(f.cal_cov_len(), 1);
    assert_eq!(f.max_cov_len(), 1);
    assert_eq!(f.check_cal_cov(&[1, 4]), set(&[4]));
}

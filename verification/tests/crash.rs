use ahash::AHashSet;
use healer::crash::{dir_name, CrashManager};

#[test]
fn raw_logs_are_numbered_up_to_a_limit() {
    let mut m = CrashManager::new();
    assert_eq!(m.unique_crashes(), 0);
    assert_eq!(m.save_raw_log(), Some(0));
    assert_eq!(m.save_raw_log(), Some(1));
    assert_eq!(m.unique_crashes(), 1);
    for _ in 2..1024 {
        assert!(m.save_raw_log().is_some());
    }
    assert_eq!(m.save_raw_log(), None);
    assert_eq!(m.save_raw_log(), None);
    assert_eq!(m.unique_crashes(), 1);
}

#[test]
fn reports_are_numbered_and_reproduced_once() {
    let mut m = CrashManager::new();
    assert_eq!(m.save_new_report("KASAN: use-after-free"), (Some(1), true));
    // a second report of the same crash is kept, but not reproduced again
    assert_eq!(m.save_new_report("KASAN: use-after-free"), (Some(2), false));
    assert_eq!(m.save_new_report("WARNING in foo"), (Some(1), true));
    assert_eq!(m.unique_crashes(), 2);
    // the reproduction failed: the next report asks again
    assert!(!m.repro_done("KASAN: use-after-free", false));
    assert_eq!(m.save_new_report("KASAN: use-after-free"), (Some(3), true));
    // the reproduction succeeded: it is saved once, and never asked again
    assert!(m.repro_done("KASAN: use-after-free", true));
    assert!(!m.repro_done("KASAN: use-after-free", true));
    assert_eq!(m.save_new_report("KASAN: use-after-free"), (Some(4), false));
}

#[test]
fn at_most_a_hundred_reports_per_crash() {
    let mut m = CrashManager::new();
    for i in 1..=100 {
        assert_eq!(m.save_new_report("BUG").0, Some(i));
    }
    assert_eq!(m.save_new_report("BUG"), (None, false));
    assert_eq!(m.unique_crashes(), 1);
}

#[test]
fn white_listed_crashes_are_ignored() {
    let mut white: AHashSet<String> = AHashSet::new();
    white.insert("no output".to_string());
    let mut m = CrashManager::with_whitelist(white);
    assert_eq!(m.save_new_report("no output"), (None, false));
    assert_eq!(m.unique_crashes(), 0);
    assert_eq!(m.save_new_report("lost connection"), (Some(1), true));
}

#[test]
fn crash_dir_names() {
    assert_eq!(dir_name("KASAN: slab-out-of-bounds in a/b/c"), "KASAN: slab-out-of-bounds in a~b~c");
    assert_eq!(dir_name(""), "");
    let long = "x/".repeat(200);
    let d = dir_name(&long);
    assert!(!d.is_empty() && d.len() <= 16);
    assert!(d.chars().all(|c| c.is_ascii_digit() || ('A'..='F').contains(&c)));
    // the same title gives the same name within a process
    assert_eq!(dir_name(&long), d);
    // 254 bytes stay as they are
    let edge = "a".repeat(254);
    assert_eq!(dir_name(&edge), edge);
}

use healer::qemu::QemuConfig;
use healer::setup::{retry_again, setup_fuzzer_shm, setup_unix_sock, split_input_progs};

#[test]
fn executor_sockets() {
    let mut cfg = QemuConfig::default();
    let (i, o, e) = setup_unix_sock(&mut cfg, 3, 1234);
    assert_eq!(i, "/tmp/healer-exec-stdin-1234-3");
    assert_eq!(o, "/tmp/healer-exec-stdout-1234-3");
    assert_eq!(e, "/tmp/healer-exec-stderr-1234-3");
    assert_eq!(cfg.serial_ports, vec![(i, 30), (o, 29), (e, 28)]);
}

#[test]
fn fuzzer_shared_memory() {
    let mut cfg = QemuConfig::default();
    cfg.add_shm("old", 1);
    let (i, o) = setup_fuzzer_shm(&mut cfg, 0, 77, 4096, 8192);
    assert_eq!(i, "healer-in_shm-0-77");
    assert_eq!(o, "healer-out_shm_0-77");
    assert_eq!(
        cfg.shmids,
        vec![("/dev/shm/healer-in_shm-0-77".to_string(), 4096), ("/dev/shm/healer-out_shm_0-77".to_string(), 8192)]
    );
}

#[test]
fn input_programs_are_shared_out() {
    assert_eq!(split_input_progs((0..10).collect::<Vec<u32>>(), 3), vec![vec![0, 1, 2, 3], vec![4, 5, 6, 7], vec![8, 9]]);
    assert_eq!(split_input_progs(vec![1, 2], 4), vec![vec![1], vec![2]]);
    assert_eq!(split_input_progs(vec![1, 2, 3], 1), vec![vec![1, 2, 3]]);
    assert!(split_input_progs(Vec::<u32>::new(), 2).is_empty());
}

#[test]
fn retries_stop_after_three_or_on_request() {
    assert!(retry_again(0, false));
    assert!(retry_again(2, false));
    assert!(!retry_again(3, false));
    assert!(!retry_again(0, true));
}

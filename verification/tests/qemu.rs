use healer::qemu::{qemu_version_check, PathFacts, QemuConfig, QemuConfigError, QemuVersion};

fn all_files(n: usize) -> PathFacts {
    PathFacts { disk_img_is_file: true, kernel_img_is_file: true, ssh_key_is_file: true, serial_path_exists: vec![false; n] }
}

#[test]
fn default_config() {
    let c = QemuConfig::default();
    assert_eq!(c.target, "linux/amd64");
    assert_eq!(c.kernel_img.as_deref(), Some("./bzImage"));
    assert_eq!(c.disk_img, "./stretch.img");
    assert_eq!(c.ssh_key, "./stretch.id_rsa");
    assert_eq!(c.ssh_user, "root");
    assert_eq!(c.qemu_smp, 2);
    assert_eq!(c.qemu_mem, 4096);
    assert!(c.shmids.is_empty());
    assert!(c.serial_ports.is_empty());
}

#[test]
fn default_config_passes_when_files_exist() {
    let c = QemuConfig::default();
    assert!(c.check(&all_files(0)).is_ok());
}

#[test]
fn config_errors_in_order() {
    let mut c = QemuConfig::default();
    c.target = "linux/sparc".to_string();
    assert!(matches!(c.check(&all_files(0)), Err(QemuConfigError::UnsupportedTarget(t)) if t == "linux/sparc"));

    let c = QemuConfig::default();
    let mut f = all_files(0);
    f.disk_img_is_file = false;
    assert!(matches!(c.check(&f), Err(QemuConfigError::InvalidPath(p)) if p == "./stretch.img"));

    let mut f = all_files(0);
    f.kernel_img_is_file = false;
    assert!(matches!(c.check(&f), Err(QemuConfigError::InvalidPath(p)) if p == "./bzImage"));

    let mut c2 = QemuConfig::default();
    c2.kernel_img = None;
    assert!(c2.check(&f).is_ok());

    let mut c = QemuConfig::default();
    c.ssh_user = String::new();
    assert!(matches!(c.check(&all_files(0)), Err(QemuConfigError::EmptySshUser)));

    let mut c = QemuConfig::default();
    c.qemu_smp = 0;
    assert!(matches!(c.check(&all_files(0)), Err(QemuConfigError::InvalidCpuNumber { sz: 0, .. })));

    let mut c = QemuConfig::default();
    c.qemu_mem = 127;
    assert!(matches!(c.check(&all_files(0)), Err(QemuConfigError::InvalidMemSize { sz: 127, .. })));
    // 128 is the least memory size the range admits
    c.qemu_mem = 128;
    assert!(!matches!(c.check(&all_files(0)), Err(QemuConfigError::InvalidMemSize { .. })));
}

#[test]
fn serial_port_errors() {
    let mut c = QemuConfig::default();
    c.serial_ports = vec![("/tmp/a".to_string(), 1), ("/tmp/b".to_string(), 31)];
    assert!(matches!(c.check(&all_files(2)), Err(QemuConfigError::BadPort(31))));
    let mut f = all_files(2);
    f.serial_path_exists[0] = true;
    assert!(matches!(c.check(&f), Err(QemuConfigError::SockAddrInUse(p)) if p == "/tmp/a"));
}

#[test]
fn shared_memory_paths() {
    let mut c = QemuConfig::default();
    c.add_shm("healer-1", 4096);
    c.add_shm("/abs/shm", 8);
    assert_eq!(c.shmids, vec![("/dev/shm/healer-1".to_string(), 4096), ("/abs/shm".to_string(), 8)]);
}

#[test]
fn qemu_versions() {
    assert_eq!(qemu_version_check(true, "QEMU emulator version 5.2.0\n"), QemuVersion::Supported);
    assert_eq!(qemu_version_check(true, "QEMU emulator version 3.1.0"), QemuVersion::TooOld(3));
    assert_eq!(qemu_version_check(true, "QEMU emulator version   \t4.0"), QemuVersion::Supported);
    assert_eq!(qemu_version_check(true, "QEMU emulator"), QemuVersion::Unparsable);
    assert_eq!(qemu_version_check(true, "version x"), QemuVersion::Unparsable);
    assert_eq!(qemu_version_check(true, "version"), QemuVersion::Unparsable);
    assert_eq!(qemu_version_check(false, "version 9"), QemuVersion::Failed);
}

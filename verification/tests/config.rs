use healer::config::{fault_patterns, FuzzerConfig, FuzzerConfigError, FuzzerFacts};
use healer::qemu::{PathFacts, QemuConfig, QemuConfigError};

fn config() -> FuzzerConfig {
    FuzzerConfig {
        os: "linux".to_string(),
        relations: None,
        input: Some("./input".to_string()),
        crash_whitelist: None,
        syz_dir: "./syzkaller".to_string(),
        output: "./output".to_string(),
        disabled_calls: None,
        disable_fault_injection: false,
        fault_injection_whitelist_path: None,
        qemu_config: QemuConfig::default(),
        fault_injection_regex: None,
    }
}

fn facts() -> FuzzerFacts {
    FuzzerFacts {
        target_supported: true,
        relations_is_file: false,
        input_is_dir: true,
        crash_whitelist_is_file: false,
        syz_dir_is_dir: true,
        bin_dir_is_dir: true,
        target_bin_dir_is_dir: true,
        executor_exists: true,
        output_exists: false,
        output_is_dir: false,
        disabled_calls_is_file: false,
        fault_whitelist_is_file: false,
        fault_whitelist_lines: vec![],
        qemu_paths: PathFacts {
            disk_img_is_file: true,
            kernel_img_is_file: true,
            ssh_key_is_file: true,
            serial_path_exists: vec![],
        },
        repro_ok: true,
        report_ok: true,
    }
}

#[test]
fn fuzzer_config_passes_when_everything_is_there() {
    assert!(config().check(&facts()).is_ok());
}

#[test]
fn fuzzer_config_unsupported_target_comes_first() {
    let mut f = facts();
    f.target_supported = false;
    f.syz_dir_is_dir = false;
    assert!(matches!(config().check(&f), Err(FuzzerConfigError::UnsupportedTarget(os)) if os == "linux"));
}

#[test]
fn fuzzer_config_missing_paths() {
    let mut f = facts();
    f.input_is_dir = false;
    assert!(matches!(config().check(&f), Err(FuzzerConfigError::BadInput(p)) if p == "./input"));
    let mut f = facts();
    f.executor_exists = false;
    assert!(matches!(config().check(&f), Err(FuzzerConfigError::NoExecutor)));
    let mut f = facts();
    f.output_exists = true;
    assert!(matches!(config().check(&f), Err(FuzzerConfigError::OutputNotDir(p)) if p == "./output"));
    f.output_is_dir = true;
    assert!(config().check(&f).is_ok());
}

#[test]
fn fuzzer_config_fault_injection() {
    let mut c = config();
    c.fault_injection_whitelist_path = Some("./faults".to_string());
    c.disable_fault_injection = true;
    assert!(matches!(c.check(&facts()), Err(FuzzerConfigError::FaultInjectionDisabled(p)) if p == "./faults"));
    c.disable_fault_injection = false;
    assert!(matches!(c.check(&facts()), Err(FuzzerConfigError::BadFaultWhitelist(_))));
    let mut f = facts();
    f.fault_whitelist_is_file = true;
    f.fault_whitelist_lines = vec!["open(".to_string(), "".to_string()];
    assert!(matches!(c.check(&f), Err(FuzzerConfigError::BadFaultPatterns(p)) if p == "./faults"));
    assert!(c.fault_injection_regex.is_none());
    f.fault_whitelist_lines = vec!["".to_string(), "".to_string()];
    assert!(c.check(&f).is_ok());
    assert!(c.fault_injection_regex.is_none());
    f.fault_whitelist_lines = vec!["^open$".to_string(), "".to_string(), "read.*".to_string()];
    assert!(c.check(&f).is_ok());
    let set = c.fault_injection_regex.as_ref().unwrap();
    assert_eq!(set.len(), 2);
    assert!(set.is_match("open"));
    assert!(set.is_match("readv"));
    assert!(!set.is_match("write"));
}

#[test]
fn fault_patterns_are_the_nonempty_lines() {
    let lines = vec!["a".to_string(), "".to_string(), "b c".to_string(), "".to_string()];
    assert_eq!(fault_patterns(&lines), vec!["a".to_string(), "b c".to_string()]);
    assert!(fault_patterns(&vec![]).is_empty());
}

#[test]
fn fuzzer_config_qemu_then_repro_then_report() {
    let mut c = config();
    c.qemu_config.qemu_mem = 127;
    let mut f = facts();
    f.repro_ok = false;
    assert!(matches!(
        c.check(&f),
        Err(FuzzerConfigError::Qemu(QemuConfigError::InvalidMemSize { sz: 127, .. }))
    ));
    c.qemu_config.qemu_mem = 128;
    assert!(matches!(c.check(&f), Err(FuzzerConfigError::BadRepro)));
    f.repro_ok = true;
    f.report_ok = false;
    assert!(matches!(c.check(&f), Err(FuzzerConfigError::BadReport)));
}

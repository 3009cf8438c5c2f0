use healer::qemu::QemuConfig;
use healer::vm::{
    boot_failure_info, build_qemu_command, join_spaces, split_at_spaces, static_conf, BootAction, BootError,
    BootProbe, BootWait, CrashLogWait,
};

fn strings(v: &[&str]) -> Vec<String> {
    v.iter().map(|s| s.to_string()).collect()
}

#[test]
fn static_conf_of_amd64() {
    let c = static_conf("linux/amd64").unwrap();
    assert_eq!(c.qemu, "qemu-system-x86_64");
    assert_eq!(c.args, "-enable-kvm -cpu host,migratable=off");
    assert_eq!(c.net_dev, "e1000");
    assert_eq!(c.append.len(), 14);
    assert_eq!(c.append[0], "root=/dev/sda");
    assert_eq!(c.append[13], "kvm-intel.enable_apicv=1");
}

#[test]
fn static_conf_of_other_targets() {
    assert_eq!(static_conf("linux/386").unwrap().args, "");
    assert_eq!(static_conf("linux/arm64").unwrap().qemu, "qemu-system-aarch64");
    assert_eq!(static_conf("linux/ppc64le").unwrap().append.len(), 0);
    assert_eq!(static_conf("linux/s390x").unwrap().append, strings(&["root=/dev/vda"]));
    // a supported target without qemu settings, and an unknown one
    assert!(static_conf("linux/s390").is_none());
    assert!(static_conf("windows/amd64").is_none());
}

#[test]
fn split_spaces_pieces() {
    assert_eq!(split_at_spaces("-M malta -cpu MIPS64R2-generic -nodefaults"), strings(&["-M", "malta", "-cpu", "MIPS64R2-generic", "-nodefaults"]));
    assert_eq!(split_at_spaces(""), strings(&[""]));
    assert_eq!(split_at_spaces("a  b"), strings(&["a", "", "b"]));
    assert_eq!(split_at_spaces("a "), strings(&["a", ""]));
}

#[test]
fn join_spaces_pieces() {
    assert_eq!(join_spaces(&strings(&["a", "b", "c"])), "a b c");
    assert_eq!(join_spaces(&strings(&["a"])), "a");
    assert_eq!(join_spaces(&Vec::new()), "");
}

#[test]
fn qemu_command_of_386() {
    let mut cfg = QemuConfig::default();
    cfg.target = "linux/386".to_string();
    cfg.qemu_smp = 4;
    cfg.qemu_mem = 2048;
    cfg.add_shm("shm-a", 4096);
    cfg.serial_ports.push(("/tmp/sock".to_string(), 30));
    let (qemu, args) = build_qemu_command(&cfg, 2222);
    assert_eq!(qemu, "qemu-system-i386");
    let append = "root=/dev/sda console=ttyS0 earlyprintk=serial oops=panic nmi_watchdog=panic panic_on_warn=1 panic=1 ftrace_dump_on_oops=orig_cpu vsyscall=native net.ifnames=0 biosdevname=0";
    let expected = strings(&[
        "-display",
        "none",
        "-serial",
        "stdio",
        "-no-reboot",
        "-snapshot",
        "-device",
        "virtio-rng-pci",
        "",
        "-m",
        "2048",
        "-smp",
        "4",
        "-device",
        "e1000,netdev=net0",
        "-netdev",
        "user,id=net0,host=10.0.2.10,hostfwd=tcp::2222-:22",
        "-drive",
        "file=./stretch.img,index=0,media=disk",
        "-kernel",
        "./bzImage",
        "-append",
        append,
        "-device",
        "ivshmem-plain,memdev=hostmem0",
        "-object",
        "memory-backend-file,size=4096,share,mem-path=/dev/shm/shm-a,id=hostmem0",
        "-chardev",
        "socket,path=/tmp/sock,id=ch0",
        "-device",
        "virtio-serial",
        "-device",
        "virtserialport,chardev=ch0,id=dev0,nr=30",
    ]);
    assert_eq!(args, expected);
}

#[test]
fn qemu_command_of_s390x_without_kernel() {
    let mut cfg = QemuConfig::default();
    cfg.target = "linux/s390x".to_string();
    cfg.kernel_img = None;
    let (qemu, args) = build_qemu_command(&cfg, 1025);
    assert_eq!(qemu, "qemu-system-s390x");
    assert_eq!(args[7], "virtio-rng-ccw");
    assert_eq!(&args[8..12], &strings(&["-M", "s390-ccw-virtio", "-cpu", "max,zpci=on"])[..]);
    assert_eq!(args.last().unwrap(), "file=./stretch.img,index=0,media=disk");
    assert!(!args.iter().any(|a| a == "-kernel"));
}

#[test]
fn boot_pauses_shrink_to_a_tenth_of_a_second() {
    let mut w = BootWait::new();
    assert_eq!(w.next_action(), BootAction::Pause(500));
    assert_eq!(w.on_probe(BootProbe::Booting), BootAction::Pause(400));
    assert_eq!(w.on_probe(BootProbe::Booting), BootAction::Pause(300));
    assert_eq!(w.on_probe(BootProbe::Booting), BootAction::Pause(200));
    assert_eq!(w.on_probe(BootProbe::Booting), BootAction::Pause(100));
    assert_eq!(w.on_probe(BootProbe::Booting), BootAction::Pause(100));
    assert_eq!(w.waited_secs(), 1);
    assert_eq!(w.on_probe(BootProbe::Alive), BootAction::Booted);
}

#[test]
fn boot_exit_is_reported() {
    let mut w = BootWait::new();
    assert_eq!(w.on_probe(BootProbe::Exited), BootAction::Exited);
    assert_eq!(w.waited_secs(), 0);
}

#[test]
fn boot_gives_up_after_ten_minutes() {
    let mut w = BootWait::new();
    let mut probes = 0;
    let mut action = w.next_action();
    while let BootAction::Pause(_) = action {
        action = w.on_probe(BootProbe::Booting);
        probes += 1;
    }
    assert_eq!(action, BootAction::TimedOut);
    // 500 + 400 + 300 + 200 ms, then 100ms pauses up to ten minutes
    assert_eq!(probes, 4 + 5986);
    assert_eq!(w.waited_secs(), 600);
}

#[test]
fn boot_failure_texts() {
    assert_eq!(boot_failure_info(12, None), "failed to boot in 12s");
    assert_eq!(boot_failure_info(0, Some("oops")), "failed to boot in 0s\nstderr:\noops");
}

#[test]
fn boot_error_messages() {
    assert_eq!(BootError::Boot("late".to_string()).to_string(), "boot: late");
    assert_eq!(BootError::Spawn("no such file".to_string()).to_string(), "spawn: no such file");
    assert_eq!(BootError::NoFreePort.to_string(), "no port to spawn qemu");
}

#[test]
fn crash_log_wait_stops_after_fifteen_seconds() {
    let mut w = CrashLogWait::new();
    let mut pauses = 0;
    while w.pause_again(true) {
        pauses += 1;
    }
    assert_eq!(pauses, 150);
    let mut w = CrashLogWait::new();
    assert!(!w.pause_again(false));
}

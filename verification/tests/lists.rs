use ahash::AHashSet;
use healer::lists::{crash_whitelist, extra_relations};
use healer::strings::{split_text, trim_text};
use healer::syscall::{Syscall, SyscallAttr};
use healer::target::{Target, TargetBuilder};

fn syscall(id: usize, name: &str) -> Syscall {
    Syscall {
        id,
        nr: id as u64,
        name: name.to_string(),
        call_name: name.to_string(),
        missing_args: 0,
        params: vec![],
        ret: None,
        attr: SyscallAttr::default(),
    }
}

fn target() -> Target {
    let mut b = TargetBuilder::new();
    b.os = Some("linux".to_string());
    b.arch = Some("amd64".to_string());
    b.ptr_sz = Some(8);
    b.page_sz = Some(4096);
    b.page_num = Some(16);
    b.revision = Some("r1".to_string());
    b.special_ptrs = vec![0];
    b.syscalls = vec![syscall(0, "open"), syscall(1, "read"), syscall(2, "close")];
    b.tys = vec![];
    b.build()
}

fn titles(v: &[&str]) -> AHashSet<String> {
    v.iter().map(|s| s.to_string()).collect()
}

#[test]
fn whitelist_lines_are_trimmed_and_empty_ones_skipped() {
    let w = crash_whitelist("no output from test machine\n  lost connection to test machine \n\n \r\nINFO: task hung\r\n");
    assert_eq!(w, titles(&["no output from test machine", "lost connection to test machine", "INFO: task hung"]));
    assert!(crash_whitelist("").is_empty());
    assert!(crash_whitelist("\n\n  \n").is_empty());
    assert_eq!(crash_whitelist("a\na\n"), titles(&["a"]));
}

#[test]
fn relations_name_two_known_syscalls() {
    let t = target();
    let r = extra_relations(&t, "open,read\n  read,close  \nopen, read\nopen,read,close\nopen,write\n\nclose,open");
    assert_eq!(r, vec![(0, 1), (1, 2), (2, 0)]);
    assert!(extra_relations(&t, "").is_empty());
}

#[test]
fn text_helpers() {
    assert_eq!(trim_text(" \t a b \u{3000}\n"), "a b");
    assert_eq!(trim_text("   "), "");
    assert_eq!(split_text("a,b,,c", ','), vec!["a", "b", "", "c"]);
    assert_eq!(split_text("", ','), vec![""]);
}

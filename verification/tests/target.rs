use healer::syscall::{Syscall, SyscallAttr};
use healer::target::{Target, TargetBuilder};
use healer::ty::common::CommonInfo;
use healer::ty::group::Field;
use healer::ty::ptr::PtrType;
use healer::ty::res::ResType;
use healer::ty::Dir;

fn syscall(id: usize, name: &str) -> Syscall {
    Syscall {
        id,
        nr: id as u64,
        name: name.to_string(),
        call_name: name.to_string(),
        missing_args: 0,
        params: vec![],
        ret: None,
        attr: SyscallAttr::default(),
    }
}

fn target() -> Target {
    let mut b = TargetBuilder::new();
    b.os = Some("linux".to_string());
    b.arch = Some("amd64".to_string());
    b.ptr_sz = Some(8);
    b.page_sz = Some(4096);
    b.page_num = Some(16);
    b.revision = Some("r1".to_string());
    b.special_ptrs = vec![0];
    b.syscalls = vec![syscall(0, "open"), syscall(1, "read"), syscall(2, "close")];
    b.tys = vec![];
    b.build()
}

#[test]
fn disabling_a_syscall_removes_it_once() {
    let mut t = target();
    assert_eq!(t.enabled_syscalls(), &[0, 1, 2][..]);
    let s = t.disable_syscall(1).map(|s| (s.id, s.name.clone()));
    assert_eq!(s, Some((1, "read".to_string())));
    assert_eq!(t.enabled_syscalls(), &[0, 2][..]);
    assert!(t.disable_syscall(1).is_none());
    assert_eq!(t.enabled_syscalls(), &[0, 2][..]);
    assert_eq!(t.os(), "linux");
    assert_eq!(t.all_syscalls().len(), 3);
}

fn res_ty(id: usize, name: &str, kinds: &[&str]) -> healer::ty::Type {
    healer::ty::Type::Res(ResType {
        comm: CommonInfo { id, name: name.to_string(), size: 4, align: 4, optional: false, varlen: false },
        bin_fmt: healer::ty::BinaryFormat::Native,
        name: name.to_string(),
        kinds: kinds.iter().map(|k| k.to_string()).collect(),
        vals: vec![0],
    })
}

fn ptr_ty(id: usize, elem: usize, dir: Dir) -> healer::ty::Type {
    healer::ty::Type::Ptr(PtrType {
        comm: CommonInfo { id, name: "ptr".to_string(), size: 8, align: 8, optional: false, varlen: false },
        elem,
        dir,
    })
}

#[test]
fn resource_usage_follows_directions() {
    let mut socket = syscall(0, "socket");
    socket.ret = Some(res_ty(1, "sock", &["fd", "sock"]));
    let mut pipe = syscall(1, "pipe");
    pipe.params = vec![Field::new("fds".to_string(), ptr_ty(2, 0, Dir::Out))];
    let mut close = syscall(2, "close");
    close.params = vec![Field::new("fd".to_string(), res_ty(0, "fd", &["fd"]))];
    let mut b = TargetBuilder::new();
    b.os = Some("linux".to_string());
    b.arch = Some("amd64".to_string());
    b.ptr_sz = Some(8);
    b.page_sz = Some(4096);
    b.page_num = Some(16);
    b.revision = Some("r1".to_string());
    b.special_ptrs = vec![0];
    b.syscalls = vec![socket, pipe, close];
    b.tys = vec![res_ty(0, "fd", &["fd"]), res_ty(1, "sock", &["fd", "sock"]), ptr_ty(2, 0, Dir::Out)];
    b.res_kinds = vec!["fd".to_string(), "sock".to_string()];
    let t = b.build();
    assert_eq!(t.syscall_output_res(0), &[1][..]);
    assert_eq!(t.syscall_input_res(0), &[] as &[usize]);
    assert_eq!(t.syscall_output_res(1), &[0][..]);
    assert_eq!(t.syscall_input_res(1), &[] as &[usize]);
    assert_eq!(t.syscall_input_res(2), &[0][..]);
    assert_eq!(t.syscall_output_res(2), &[] as &[usize]);
}

#[test]
fn resource_kinds_and_their_producers() {
    let mut socket = syscall(0, "socket");
    socket.ret = Some(res_ty(1, "sock", &["fd", "sock"]));
    let mut b = TargetBuilder::new();
    b.os = Some("linux".to_string());
    b.arch = Some("amd64".to_string());
    b.ptr_sz = Some(8);
    b.page_sz = Some(4096);
    b.page_num = Some(4096);
    b.revision = Some("r".to_string());
    b.special_ptrs = vec![0];
    b.syscalls = vec![socket];
    b.tys = vec![res_ty(0, "fd", &["fd"]), res_ty(1, "sock", &["fd", "sock"])];
    b.res_kinds = vec!["fd".to_string(), "sock".to_string()];
    let t = b.build();
    assert_eq!(t.res_output_syscall(1), &[0][..]);
    assert_eq!(t.res_output_syscall(0), &[0][..]);
    assert_eq!(t.res_input_syscall(0), &[] as &[usize]);
    assert_eq!(t.syscall_output_res(0), &[1][..]);
    assert_eq!(t.res_sub_tys(0), &[0, 1][..]);
    assert_eq!(t.res_super_tys(1), &[0, 1][..]);
}

#[test]
fn build_sorts_syscalls_and_types_by_id() {
    let mut b = TargetBuilder::new();
    b.os = Some("linux".to_string());
    b.arch = Some("amd64".to_string());
    b.ptr_sz = Some(8);
    b.page_sz = Some(4096);
    b.page_num = Some(16);
    b.revision = Some("r1".to_string());
    b.syscalls = vec![syscall(2, "close"), syscall(0, "open"), syscall(1, "read")];
    b.tys = vec![ptr_ty(2, 0, Dir::Out), res_ty(1, "sock", &["fd", "sock"]), res_ty(0, "fd", &["fd"])];
    b.res_kinds = vec!["fd".to_string(), "sock".to_string()];
    let t = b.build();
    let ids: Vec<usize> = t.all_syscalls().iter().map(|s| s.id).collect();
    assert_eq!(ids, vec![0, 1, 2]);
    assert_eq!(t.enabled_syscalls(), &[0, 1, 2][..]);
    let tids: Vec<usize> = t.tys().iter().map(|ty| ty.id()).collect();
    assert_eq!(tids, vec![0, 1, 2]);
    let rids: Vec<usize> = t.res_tys().iter().map(|r| r.id()).collect();
    assert_eq!(rids, vec![0, 1]);
}

#[test]
fn sub_and_super_kinds_come_in_name_order() {
    let mut b = TargetBuilder::new();
    b.os = Some("linux".to_string());
    b.arch = Some("amd64".to_string());
    b.ptr_sz = Some(8);
    b.page_sz = Some(4096);
    b.page_num = Some(16);
    b.revision = Some("r1".to_string());
    b.tys = vec![res_ty(0, "fd", &["fd"]), res_ty(1, "sock", &["fd", "sock"])];
    b.res_kinds = vec!["sock".to_string(), "fd".to_string()];
    let t = b.build();
    // kind 0 is "sock", kind 1 is "fd": "fd" sorts first
    assert_eq!(t.res_super_tys(0), &[1, 0][..]);
    assert_eq!(t.res_sub_tys(1), &[1, 0][..]);
    assert_eq!(t.res_sub_tys(0), &[0][..]);
}

//! The qemu command line of a configuration, and the decisions of the loops
//! that wait for a machine to boot and for its crash log.
//!
//! Spawning qemu, sleeping and probing the machine are left to the caller;
//! the functions here say what to run and what to do next.
use crate::qemu::QemuConfig;
use crate::strings::{dec_chars, digit_char, joined, lemma_strs_add, push_dec, split_on, split_text, strs_view};
use vstd::prelude::*;

verus! {

/// What qemu needs to know of a target besides the configuration.
pub struct QemuStaticConf {
    /// The qemu binary.
    pub qemu: String,
    /// Extra arguments, separated by single spaces.
    pub args: String,
    /// The network device.
    pub net_dev: String,
    /// Kernel command line parameters of the target.
    pub append: Vec<String>,
}

/// A `QemuStaticConf` as text.
#[verifier::ext_equal]
pub struct QemuStaticView {
    pub qemu: Seq<char>,
    pub args: Seq<char>,
    pub net_dev: Seq<char>,
    pub append: Seq<Seq<char>>,
}

impl View for QemuStaticConf {
    type V = QemuStaticView;

    open spec fn view(&self) -> QemuStaticView {
        QemuStaticView {
            qemu: self.qemu@,
            args: self.args@,
            net_dev: self.net_dev@,
            append: strs_view(self.append@),
        }
    }
}

/// The per-target constants of qemu, for the targets that have them.
pub open spec fn static_conf_of(target: Seq<char>) -> Option<QemuStaticView> {
    if target == "linux/amd64"@ {
        Some(
            QemuStaticView {
                qemu: "qemu-system-x86_64"@,
                args: "-enable-kvm -cpu host,migratable=off"@,
                net_dev: "e1000"@,
                append: seq![
                    "root=/dev/sda"@,
                    "console=ttyS0"@,
                    "kvm-intel.nested=1"@,
                    "kvm-intel.unrestricted_guest=1"@,
                    "kvm-intel.vmm_exclusive=1"@,
                    "kvm-intel.fasteoi=1"@,
                    "kvm-intel.ept=1"@,
                    "kvm-intel.flexpriority=1"@,
                    "kvm-intel.vpid=1"@,
                    "kvm-intel.emulate_invalid_guest_state=1"@,
                    "kvm-intel.eptad=1"@,
                    "kvm-intel.enable_shadow_vmcs=1"@,
                    "kvm-intel.pml=1"@,
                    "kvm-intel.enable_apicv=1"@,
                ],
            },
        )
    } else if target == "linux/386"@ {
        Some(
            QemuStaticView {
                qemu: "qemu-system-i386"@,
                args: ""@,
                net_dev: "e1000"@,
                append: seq!["root=/dev/sda"@, "console=ttyS0"@],
            },
        )
    } else if target == "linux/arm64"@ {
        Some(
            QemuStaticView {
                qemu: "qemu-system-aarch64"@,
                args: "-machine virt,virtualization=on -cpu cortex-a57"@,
                net_dev: "virtio-net-pci"@,
                append: seq!["root=/dev/vda"@, "console=ttyAMA0"@],
            },
        )
    } else if target == "linux/arm"@ {
        Some(
            QemuStaticView {
                qemu: "qemu-system-arm"@,
                args: ""@,
                net_dev: "virtio-net-pci"@,
                append: seq!["root=/dev/vda"@, "console=ttyAMA0"@],
            },
        )
    } else if target == "linux/mips64le"@ {
        Some(
            QemuStaticView {
                qemu: "qemu-system-mips64el"@,
                args: "-M malta -cpu MIPS64R2-generic -nodefaults"@,
                net_dev: "e1000"@,
                append: seq!["root=/dev/sda"@, "console=ttyS0"@],
            },
        )
    } else if target == "linux/ppc64le"@ {
        Some(
            QemuStaticView {
                qemu: "qemu-system-ppc64"@,
                args: "-enable-kvm -vga none"@,
                net_dev: "virtio-net-pci"@,
                append: Seq::empty(),
            },
        )
    } else if target == "linux/riscv64"@ {
        Some(
            QemuStaticView {
                qemu: "qemu-system-riscv64"@,
                args: "-machine virt"@,
                net_dev: "virtio-net-pci"@,
                append: seq!["root=/dev/vda"@, "console=ttyS0"@],
            },
        )
    } else if target == "linux/s390x"@ {
        Some(
            QemuStaticView {
                qemu: "qemu-system-s390x"@,
                args: "-M s390-ccw-virtio -cpu max,zpci=on"@,
                net_dev: "virtio-net-pci"@,
                append: seq!["root=/dev/vda"@],
            },
        )
    } else {
        None
    }
}

fn text(lit: &str) -> (r: String)
    ensures
        r@ == lit@,
{
    String::from_str(lit)
}

fn eq_text(s: &str, lit: &str) -> (r: bool)
    ensures
        r == (s@ == lit@),
{
    let a = String::from_str(s);
    let b = String::from_str(lit);
    a == b
}

fn conf(qemu: &str, args: &str, net_dev: &str, append: Vec<String>) -> (r: QemuStaticConf)
    ensures
        r.qemu@ == qemu@,
        r.args@ == args@,
        r.net_dev@ == net_dev@,
        r.append@ == append@,
{
    QemuStaticConf { qemu: text(qemu), args: text(args), net_dev: text(net_dev), append }
}

/// The per-target constants of qemu for `target`, if it has them.
pub fn static_conf(target: &str) -> (r: Option<QemuStaticConf>)
    ensures
        r matches Some(c) ==> static_conf_of(target@) == Some(c@),
        r is None <==> static_conf_of(target@) is None,
{
    let r = if eq_text(target, "linux/amd64") {
        let a = vec![
            text("root=/dev/sda"),
            text("console=ttyS0"),
            text("kvm-intel.nested=1"),
            text("kvm-intel.unrestricted_guest=1"),
            text("kvm-intel.vmm_exclusive=1"),
            text("kvm-intel.fasteoi=1"),
            text("kvm-intel.ept=1"),
            text("kvm-intel.flexpriority=1"),
            text("kvm-intel.vpid=1"),
            text("kvm-intel.emulate_invalid_guest_state=1"),
            text("kvm-intel.eptad=1"),
            text("kvm-intel.enable_shadow_vmcs=1"),
            text("kvm-intel.pml=1"),
            text("kvm-intel.enable_apicv=1"),
        ];
        Some(conf("qemu-system-x86_64", "-enable-kvm -cpu host,migratable=off", "e1000", a))
    } else if eq_text(target, "linux/386") {
        Some(conf("qemu-system-i386", "", "e1000", vec![text("root=/dev/sda"), text("console=ttyS0")]))
    } else if eq_text(target, "linux/arm64") {
        Some(
            conf(
                "qemu-system-aarch64",
                "-machine virt,virtualization=on -cpu cortex-a57",
                "virtio-net-pci",
                vec![text("root=/dev/vda"), text("console=ttyAMA0")],
            ),
        )
    } else if eq_text(target, "linux/arm") {
        Some(conf("qemu-system-arm", "", "virtio-net-pci", vec![text("root=/dev/vda"), text("console=ttyAMA0")]))
    } else if eq_text(target, "linux/mips64le") {
        Some(
            conf(
                "qemu-system-mips64el",
                "-M malta -cpu MIPS64R2-generic -nodefaults",
                "e1000",
                vec![text("root=/dev/sda"), text("console=ttyS0")],
            ),
        )
    } else if eq_text(target, "linux/ppc64le") {
        Some(conf("qemu-system-ppc64", "-enable-kvm -vga none", "virtio-net-pci", Vec::new()))
    } else if eq_text(target, "linux/riscv64") {
        Some(conf("qemu-system-riscv64", "-machine virt", "virtio-net-pci", vec![text("root=/dev/vda"), text("console=ttyS0")]))
    } else if eq_text(target, "linux/s390x") {
        Some(conf("qemu-system-s390x", "-M s390-ccw-virtio -cpu max,zpci=on", "virtio-net-pci", vec![text("root=/dev/vda")]))
    } else {
        None
    };
    proof {
        if r is Some {
            assert(r.unwrap()@ == static_conf_of(target@).unwrap());
        }
    }
    r
}


/// The pieces of `s` between single spaces, as `str::split(' ')` gives
/// them: a string without spaces, the empty one too, is one piece.
pub open spec fn split_spaces(s: Seq<char>) -> Seq<Seq<char>> {
    split_on(s, ' ')
}

/// `s` split at each space.
pub fn split_at_spaces(s: &str) -> (r: Vec<String>)
    ensures
        strs_view(r@) == split_spaces(s@),
{
    split_text(s, ' ')
}

/// `parts` with a space between each two.
pub fn join_spaces(parts: &Vec<String>) -> (r: String)
    ensures
        r@ == joined(strs_view(parts@), " "@),
{
    let mut r = String::new();
    let mut i: usize = 0;
    while i < parts.len()
        invariant
            0 <= i <= parts@.len(),
            r@ == joined(strs_view(parts@).take(i as int), " "@),
        decreases parts@.len() - i,
    {
        let ghost ps = strs_view(parts@);
        proof {
            assert(ps.take(i + 1).drop_last() =~= ps.take(i as int));
        }
        if i == 0 {
            r = parts[0].clone();
        } else {
            r.append(" ");
            r.append(parts[i].as_str());
        }
        i = i + 1;
    }
    proof {
        assert(strs_view(parts@).take(i as int) =~= strs_view(parts@));
    }
    r
}

/// Decimal form of `n`.
fn dec(n: u64) -> (r: String)
    ensures
        r@ == dec_chars(n as nat),
{
    let mut s = String::new();
    push_dec(&mut s, n);
    proof {
        assert(Seq::<char>::empty() + dec_chars(n as nat) =~= dec_chars(n as nat));
    }
    s
}

/// Arguments every machine gets, whatever the target: no display, the
/// serial console on stdio, no reboot, a snapshot of the disk, and a random
/// number device (on a ccw bus for s390x).
pub open spec fn common_args(target: Seq<char>) -> Seq<Seq<char>> {
    seq![
        "-display"@,
        "none"@,
        "-serial"@,
        "stdio"@,
        "-no-reboot"@,
        "-snapshot"@,
        "-device"@,
        if target == "linux/s390x"@ {
            "virtio-rng-ccw"@
        } else {
            "virtio-rng-pci"@
        },
    ]
}

/// Kernel parameters every linux machine gets.
pub open spec fn linux_append() -> Seq<Seq<char>> {
    seq![
        "earlyprintk=serial"@,
        "oops=panic"@,
        "nmi_watchdog=panic"@,
        "panic_on_warn=1"@,
        "panic=1"@,
        "ftrace_dump_on_oops=orig_cpu"@,
        "vsyscall=native"@,
        "net.ifnames=0"@,
        "biosdevname=0"@,
    ]
}

/// The network device, with the guest's ssh port forwarded to `port` of the
/// host.
pub open spec fn net_args(net_dev: Seq<char>, port: u16) -> Seq<Seq<char>> {
    seq![
        "-device"@,
        net_dev + ",netdev=net0"@,
        "-netdev"@,
        "user,id=net0,host=10.0.2.10,hostfwd=tcp::"@ + dec_chars(port as nat) + "-:22"@,
    ]
}

/// The disk image.
pub open spec fn image_args(disk_img: Seq<char>) -> Seq<Seq<char>> {
    seq!["-drive"@, "file="@ + disk_img + ",index=0,media=disk"@]
}

/// The kernel image and its command line, when there is a kernel image.
pub open spec fn kernel_args(kernel_img: Option<String>, append: Seq<Seq<char>>) -> Seq<Seq<char>> {
    match kernel_img {
        Some(k) => seq!["-kernel"@, k@, "-append"@, joined(append + linux_append(), " "@)],
        None => Seq::empty(),
    }
}

/// The `i`-th shared memory device: file `f` of `sz` bytes.
pub open spec fn shm_dev_args(i: nat, f: Seq<char>, sz: usize) -> Seq<Seq<char>> {
    seq![
        "-device"@,
        "ivshmem-plain,memdev=hostmem"@ + dec_chars(i),
        "-object"@,
        "memory-backend-file,size="@ + dec_chars(sz as nat) + ",share,mem-path="@ + f + ",id=hostmem"@
            + dec_chars(i),
    ]
}

/// The shared memory devices, in order.
pub open spec fn shm_args(shm: Seq<(String, usize)>) -> Seq<Seq<char>>
    decreases shm.len(),
{
    if shm.len() == 0 {
        Seq::empty()
    } else {
        shm_args(shm.drop_last()) + shm_dev_args((shm.len() - 1) as nat, shm.last().0@, shm.last().1)
    }
}

proof fn lemma_digit_injective(x: nat, y: nat)
    requires
        x < 10,
        y < 10,
        digit_char(x) == digit_char(y),
    ensures
        x == y,
{
}

proof fn lemma_dec_len(n: nat)
    ensures
        dec_chars(n).len() >= 1,
        n < 10 <==> dec_chars(n).len() == 1,
    decreases n,
{
    if n >= 10 {
        lemma_dec_len(n / 10);
    }
}

/// Decimal numerals of distinct numbers differ.
proof fn lemma_dec_injective(a: nat, b: nat)
    requires
        dec_chars(a) == dec_chars(b),
    ensures
        a == b,
    decreases a,
{
    lemma_dec_len(a);
    lemma_dec_len(b);
    if a < 10 {
        assert(dec_chars(a)[0] == digit_char(a));
        assert(dec_chars(b)[0] == digit_char(b));
        lemma_digit_injective(a, b);
    } else {
        let da = dec_chars(a);
        let db = dec_chars(b);
        assert(da.last() == digit_char(a % 10));
        assert(db.last() == digit_char(b % 10));
        lemma_digit_injective(a % 10, b % 10);
        assert(da.drop_last() =~= dec_chars(a / 10));
        assert(db.drop_last() =~= dec_chars(b / 10));
        lemma_dec_injective(a / 10, b / 10);
    }
}

/// The shared memory devices take four arguments each, in order: the
/// `i`-th device is `ivshmem-plain` on the memory `hostmem<i>`, and the
/// `i`-th object is the file of that device, of its size, with the id
/// `hostmem<i>`. So distinct devices use distinct memories.
pub proof fn lemma_shm_names(shm: Seq<(String, usize)>)
    ensures
        shm_args(shm).len() == 4 * shm.len(),
        forall|i: int|
            0 <= i < shm.len() ==> {
                &&& #[trigger] shm_args(shm)[4 * i] == "-device"@
                &&& shm_args(shm)[4 * i + 1] == "ivshmem-plain,memdev=hostmem"@ + dec_chars(i as nat)
                &&& shm_args(shm)[4 * i + 2] == "-object"@
                &&& shm_args(shm)[4 * i + 3] == "memory-backend-file,size="@ + dec_chars(shm[i].1 as nat)
                    + ",share,mem-path="@ + shm[i].0@ + ",id=hostmem"@ + dec_chars(i as nat)
            },
        forall|i: int, j: int|
            0 <= i < j < shm.len() ==> #[trigger] shm_args(shm)[4 * i + 1] != #[trigger] shm_args(shm)[4 * j + 1],
    decreases shm.len(),
{
    if shm.len() > 0 {
        let d = shm.drop_last();
        lemma_shm_names(d);
        let n = shm.len() - 1;
        let a = shm_args(shm);
        assert(a == shm_args(d) + shm_dev_args(n as nat, shm.last().0@, shm.last().1));
        assert forall|i: int| 0 <= i < shm.len() implies {
            &&& #[trigger] a[4 * i] == "-device"@
            &&& a[4 * i + 1] == "ivshmem-plain,memdev=hostmem"@ + dec_chars(i as nat)
            &&& a[4 * i + 2] == "-object"@
            &&& a[4 * i + 3] == "memory-backend-file,size="@ + dec_chars(shm[i].1 as nat) + ",share,mem-path="@
                + shm[i].0@ + ",id=hostmem"@ + dec_chars(i as nat)
        } by {
            if i < n {
                assert(d[i] == shm[i]);
                assert(shm_args(d)[4 * i] == "-device"@);
            }
        }
        assert forall|i: int, j: int| 0 <= i < j < shm.len() implies #[trigger] a[4 * i + 1] != #[trigger] a[4
            * j + 1] by {
            let p = "ivshmem-plain,memdev=hostmem"@;
            if a[4 * i + 1] == a[4 * j + 1] {
                assert(a[4 * i] == "-device"@);
                assert(a[4 * j] == "-device"@);
                assert((p + dec_chars(i as nat)).subrange(p.len() as int, (p + dec_chars(i as nat)).len() as int)
                    =~= dec_chars(i as nat));
                assert((p + dec_chars(j as nat)).subrange(p.len() as int, (p + dec_chars(j as nat)).len() as int)
                    =~= dec_chars(j as nat));
                lemma_dec_injective(i as nat, j as nat);
            }
        }
    }
}

/// The `i`-th serial port: unix socket `p` on port `port`.
pub open spec fn serial_dev_args(i: nat, p: Seq<char>, port: u8) -> Seq<Seq<char>> {
    seq![
        "-chardev"@,
        "socket,path="@ + p + ",id=ch"@ + dec_chars(i),
        "-device"@,
        "virtio-serial"@,
        "-device"@,
        "virtserialport,chardev=ch"@ + dec_chars(i) + ",id=dev"@ + dec_chars(i) + ",nr="@ + dec_chars(
            port as nat,
        ),
    ]
}

/// The serial ports, in order.
pub open spec fn serial_args(ports: Seq<(String, u8)>) -> Seq<Seq<char>>
    decreases ports.len(),
{
    if ports.len() == 0 {
        Seq::empty()
    } else {
        serial_args(ports.drop_last()) + serial_dev_args((ports.len() - 1) as nat, ports.last().0@, ports.last().1)
    }
}

/// The serial ports take six arguments each, in order: the `i`-th port is
/// the unix socket of its path with the id `ch<i>`, a `virtio-serial`
/// device, and a port device on `ch<i>` with the id `dev<i>` and its port
/// number.
pub proof fn lemma_serial_names(ports: Seq<(String, u8)>)
    ensures
        serial_args(ports).len() == 6 * ports.len(),
        forall|i: int|
            0 <= i < ports.len() ==> {
                &&& #[trigger] serial_args(ports)[6 * i] == "-chardev"@
                &&& serial_args(ports)[6 * i + 1] == "socket,path="@ + ports[i].0@ + ",id=ch"@ + dec_chars(i as nat)
                &&& serial_args(ports)[6 * i + 3] == "virtio-serial"@
                &&& serial_args(ports)[6 * i + 5] == "virtserialport,chardev=ch"@ + dec_chars(i as nat) + ",id=dev"@
                    + dec_chars(i as nat) + ",nr="@ + dec_chars(ports[i].1 as nat)
            },
    decreases ports.len(),
{
    if ports.len() > 0 {
        let d = ports.drop_last();
        lemma_serial_names(d);
        let n = ports.len() - 1;
        let a = serial_args(ports);
        assert(a == serial_args(d) + serial_dev_args(n as nat, ports.last().0@, ports.last().1));
        assert forall|i: int| 0 <= i < ports.len() implies {
            &&& #[trigger] a[6 * i] == "-chardev"@
            &&& a[6 * i + 1] == "socket,path="@ + ports[i].0@ + ",id=ch"@ + dec_chars(i as nat)
            &&& a[6 * i + 3] == "virtio-serial"@
            &&& a[6 * i + 5] == "virtserialport,chardev=ch"@ + dec_chars(i as nat) + ",id=dev"@ + dec_chars(i as nat)
                + ",nr="@ + dec_chars(ports[i].1 as nat)
        } by {
            if i < n {
                assert(d[i] == ports[i]);
                assert(serial_args(d)[6 * i] == "-chardev"@);
            }
        }
    }
}

/// The arguments of qemu for `cfg`, given the target's constants `sc` and
/// the host port that the guest's ssh port is forwarded to.
pub open spec fn qemu_args(cfg: QemuConfig, sc: QemuStaticView, port: u16) -> Seq<Seq<char>> {
    common_args(cfg.target@) + split_spaces(sc.args) + seq!["-m"@, dec_chars(cfg.qemu_mem as nat)] + seq![
        "-smp"@,
        dec_chars(cfg.qemu_smp as nat),
    ] + net_args(sc.net_dev, port) + image_args(cfg.disk_img@) + kernel_args(cfg.kernel_img, sc.append)
        + shm_args(cfg.shmids@) + serial_args(cfg.serial_ports@)
}

fn extend(args: &mut Vec<String>, more: Vec<String>)
    ensures
        strs_view(final(args)@) == strs_view(old(args)@) + strs_view(more@),
{
    let mut m = more;
    args.append(&mut m);
    proof {
        lemma_strs_add(old(args)@, more@);
    }
}

fn shm_part(cfg: &QemuConfig) -> (r: Vec<String>)
    ensures
        strs_view(r@) == shm_args(cfg.shmids@),
{
    let mut out: Vec<String> = Vec::new();
    let mut i: usize = 0;
    while i < cfg.shmids.len()
        invariant
            0 <= i <= cfg.shmids@.len(),
            strs_view(out@) == shm_args(cfg.shmids@.take(i as int)),
        decreases cfg.shmids@.len() - i,
    {
        let f = &cfg.shmids[i].0;
        let sz = cfg.shmids[i].1;
        let mut mem = text("ivshmem-plain,memdev=hostmem");
        push_dec(&mut mem, i as u64);
        let mut obj = text("memory-backend-file,size=");
        push_dec(&mut obj, sz as u64);
        obj.append(",share,mem-path=");
        obj.append(f.as_str());
        obj.append(",id=hostmem");
        push_dec(&mut obj, i as u64);
        let part = vec![text("-device"), mem, text("-object"), obj];
        proof {
            let t = cfg.shmids@.take(i + 1);
            assert(t.drop_last() =~= cfg.shmids@.take(i as int));
            assert(strs_view(part@) =~= shm_dev_args(i as nat, f@, sz));
        }
        extend(&mut out, part);
        i = i + 1;
    }
    proof {
        assert(cfg.shmids@.take(i as int) =~= cfg.shmids@);
    }
    out
}

fn serial_part(cfg: &QemuConfig) -> (r: Vec<String>)
    ensures
        strs_view(r@) == serial_args(cfg.serial_ports@),
{
    let mut out: Vec<String> = Vec::new();
    let mut i: usize = 0;
    while i < cfg.serial_ports.len()
        invariant
            0 <= i <= cfg.serial_ports@.len(),
            strs_view(out@) == serial_args(cfg.serial_ports@.take(i as int)),
        decreases cfg.serial_ports@.len() - i,
    {
        let p = &cfg.serial_ports[i].0;
        let port = cfg.serial_ports[i].1;
        let mut ch = text("socket,path=");
        ch.append(p.as_str());
        ch.append(",id=ch");
        push_dec(&mut ch, i as u64);
        let mut dev = text("virtserialport,chardev=ch");
        push_dec(&mut dev, i as u64);
        dev.append(",id=dev");
        push_dec(&mut dev, i as u64);
        dev.append(",nr=");
        push_dec(&mut dev, port as u64);
        let part = vec![text("-chardev"), ch, text("-device"), text("virtio-serial"), text("-device"), dev];
        proof {
            let t = cfg.serial_ports@.take(i + 1);
            assert(t.drop_last() =~= cfg.serial_ports@.take(i as int));
            assert(strs_view(part@) =~= serial_dev_args(i as nat, p@, port));
        }
        extend(&mut out, part);
        i = i + 1;
    }
    proof {
        assert(cfg.serial_ports@.take(i as int) =~= cfg.serial_ports@);
    }
    out
}

fn kernel_part(cfg: &QemuConfig, sc: &QemuStaticConf) -> (r: Vec<String>)
    ensures
        strs_view(r@) == kernel_args(cfg.kernel_img, sc@.append),
{
    match &cfg.kernel_img {
        Some(k) => {
            let mut all = sc.append.clone();
            let linux = vec![
                text("earlyprintk=serial"),
                text("oops=panic"),
                text("nmi_watchdog=panic"),
                text("panic_on_warn=1"),
                text("panic=1"),
                text("ftrace_dump_on_oops=orig_cpu"),
                text("vsyscall=native"),
                text("net.ifnames=0"),
                text("biosdevname=0"),
            ];
            proof {
                assert(strs_view(linux@) =~= linux_append());
            }
            extend(&mut all, linux);
            let line = join_spaces(&all);
            let r = vec![text("-kernel"), k.clone(), text("-append"), line];
            proof {
                assert(strs_view(r@) =~= kernel_args(cfg.kernel_img, sc@.append));
            }
            r
        },
        None => {
            let r: Vec<String> = Vec::new();
            proof {
                assert(strs_view(r@) =~= Seq::<Seq<char>>::empty());
            }
            r
        },
    }
}

/// The qemu binary and its arguments that boot `cfg`, with the guest's ssh
/// port forwarded to `ssh_fwd_port` of the host.
pub fn build_qemu_command(cfg: &QemuConfig, ssh_fwd_port: u16) -> (r: (String, Vec<String>))
    requires
        static_conf_of(cfg.target@) is Some,
    ensures
        r.0@ == static_conf_of(cfg.target@).unwrap().qemu,
        strs_view(r.1@) == qemu_args(*cfg, static_conf_of(cfg.target@).unwrap(), ssh_fwd_port),
{
    let sc = static_conf(cfg.target.as_str()).unwrap();
    let rng = if eq_text(cfg.target.as_str(), "linux/s390x") {
        text("virtio-rng-ccw")
    } else {
        text("virtio-rng-pci")
    };
    let mut args = vec![
        text("-display"),
        text("none"),
        text("-serial"),
        text("stdio"),
        text("-no-reboot"),
        text("-snapshot"),
        text("-device"),
        rng,
    ];
    proof {
        assert(strs_view(args@) =~= common_args(cfg.target@));
    }
    extend(&mut args, split_at_spaces(sc.args.as_str()));
    let mem = vec![text("-m"), dec(cfg.qemu_mem as u64)];
    proof {
        assert(strs_view(mem@) =~= seq!["-m"@, dec_chars(cfg.qemu_mem as nat)]);
    }
    extend(&mut args, mem);
    let smp = vec![text("-smp"), dec(cfg.qemu_smp as u64)];
    proof {
        assert(strs_view(smp@) =~= seq!["-smp"@, dec_chars(cfg.qemu_smp as nat)]);
    }
    extend(&mut args, smp);
    let mut dev = sc.net_dev.clone();
    dev.append(",netdev=net0");
    let mut user = text("user,id=net0,host=10.0.2.10,hostfwd=tcp::");
    push_dec(&mut user, ssh_fwd_port as u64);
    user.append("-:22");
    let net = vec![text("-device"), dev, text("-netdev"), user];
    proof {
        assert(strs_view(net@) =~= net_args(sc@.net_dev, ssh_fwd_port));
    }
    extend(&mut args, net);
    let mut drive = text("file=");
    drive.append(cfg.disk_img.as_str());
    drive.append(",index=0,media=disk");
    let image = vec![text("-drive"), drive];
    proof {
        assert(strs_view(image@) =~= image_args(cfg.disk_img@));
    }
    extend(&mut args, image);
    extend(&mut args, kernel_part(cfg, &sc));
    extend(&mut args, shm_part(cfg));
    extend(&mut args, serial_part(cfg));
    (sc.qemu, args)
}


/// Longest wait for a machine to boot, in milliseconds: ten minutes.
pub const BOOT_TIMEOUT_MS: u64 = 600000;

/// The pause before the `k`-th probe of a booting machine, in milliseconds:
/// half a second, then 100ms shorter each time, down to 100ms.
pub open spec fn pause_at(k: nat) -> nat {
    if k >= 4 {
        100
    } else {
        (500 - 100 * k) as nat
    }
}

/// Time spent pausing before the first `n` probes.
pub open spec fn paused_before(n: nat) -> nat
    decreases n,
{
    if n == 0 {
        0
    } else {
        paused_before((n - 1) as nat) + pause_at((n - 1) as nat)
    }
}

/// What a probe of a booting machine found.
#[derive(Debug, Clone, Copy, PartialEq, Eq, Structural)]
pub enum BootProbe {
    /// The machine answers.
    Alive,
    /// Qemu has exited.
    Exited,
    /// Neither yet.
    Booting,
}

/// What to do next while a machine boots.
#[derive(Debug, Clone, Copy, PartialEq, Eq, Structural)]
pub enum BootAction {
    /// Pause this many milliseconds, then probe the machine.
    Pause(u64),
    /// The machine is up.
    Booted,
    /// Qemu exited before the machine came up.
    Exited,
    /// Ten minutes have passed.
    TimedOut,
}

/// Progress of waiting for a machine to boot: how many probes found it still
/// booting, and how long the pauses before them took.
pub struct BootWait {
    tries: u64,
    waited_ms: u64,
    pause_ms: u64,
}

impl BootWait {
    /// Number of probes that found the machine still booting.
    pub closed spec fn tries(&self) -> nat {
        self.tries as nat
    }

    /// The waiting has gone on consistently: the pauses follow `pause_at`.
    pub closed spec fn wf(&self) -> bool {
        &&& self.pause_ms == pause_at(self.tries as nat)
        &&& self.waited_ms == paused_before(self.tries as nat)
        &&& self.waited_ms < BOOT_TIMEOUT_MS + 500
    }

    /// Milliseconds paused so far.
    pub open spec fn waited(&self) -> nat {
        paused_before(self.tries())
    }

    /// No probe made yet.
    pub fn new() -> (r: Self)
        ensures
            r.wf(),
            r.tries() == 0,
    {
        BootWait { tries: 0, waited_ms: 0, pause_ms: 500 }
    }

    /// Whole seconds paused so far.
    pub fn waited_secs(&self) -> (r: u64)
        requires
            self.wf(),
        ensures
            r == self.waited() / 1000,
    {
        self.waited_ms / 1000
    }

    /// What to do before the next probe: pause, unless ten minutes of
    /// pauses have passed.
    pub fn next_action(&self) -> (r: BootAction)
        requires
            self.wf(),
        ensures
            self.waited() < BOOT_TIMEOUT_MS ==> r == BootAction::Pause(pause_at(self.tries()) as u64),
            self.waited() >= BOOT_TIMEOUT_MS ==> r == BootAction::TimedOut,
    {
        if self.waited_ms < BOOT_TIMEOUT_MS {
            BootAction::Pause(self.pause_ms)
        } else {
            BootAction::TimedOut
        }
    }

    /// Takes in what the probe after a pause found, and says what to do
    /// next. A machine that answers is booted; one whose qemu exited has
    /// failed; otherwise the pause is counted and the next one decided.
    pub fn on_probe(&mut self, probe: BootProbe) -> (r: BootAction)
        requires
            old(self).wf(),
            old(self).waited() < BOOT_TIMEOUT_MS,
        ensures
            final(self).wf(),
            probe == BootProbe::Alive ==> r == BootAction::Booted && final(self).tries() == old(self).tries(),
            probe == BootProbe::Exited ==> r == BootAction::Exited && final(self).tries() == old(self).tries(),
            probe == BootProbe::Booting ==> {
                &&& final(self).tries() == old(self).tries() + 1
                &&& final(self).waited() == old(self).waited() + pause_at(old(self).tries())
                &&& final(self).waited() < BOOT_TIMEOUT_MS ==> r == BootAction::Pause(
                    pause_at(final(self).tries()) as u64,
                )
                &&& final(self).waited() >= BOOT_TIMEOUT_MS ==> r == BootAction::TimedOut
            },
    {
        match probe {
            BootProbe::Alive => BootAction::Booted,
            BootProbe::Exited => BootAction::Exited,
            BootProbe::Booting => {
                proof {
                    lemma_paused_grows(self.tries as nat);
                }
                self.waited_ms = self.waited_ms + self.pause_ms;
                if self.pause_ms > 100 {
                    self.pause_ms = self.pause_ms - 100;
                }
                self.tries = self.tries + 1;
                self.next_action()
            },
        }
    }
}

/// Every pause lasts between 100ms and half a second.
pub proof fn lemma_pause_bounds(k: nat)
    ensures
        100 <= pause_at(k) <= 500,
{
}

/// The pauses before `n` probes take at least 100ms each: a machine that
/// never answers is given up after at most 6000 probes.
pub proof fn lemma_paused_grows(n: nat)
    ensures
        paused_before(n) >= 100 * n,
    decreases n,
{
    if n > 0 {
        lemma_paused_grows((n - 1) as nat);
    }
}

/// Text of a failed boot after `waited_secs` seconds, with what qemu left
/// on stderr when it exited.
pub open spec fn boot_failure_text(waited_secs: nat, stderr_msg: Option<Seq<char>>) -> Seq<char> {
    let base = "failed to boot in "@ + dec_chars(waited_secs) + "s"@;
    match stderr_msg {
        Some(m) => base + "\nstderr:\n"@ + m,
        None => base,
    }
}

/// Says that the machine failed to boot in `waited_secs` seconds, and what
/// qemu left on stderr if it exited.
pub fn boot_failure_info(waited_secs: u64, stderr_msg: Option<&str>) -> (r: String)
    ensures
        r@ == boot_failure_text(waited_secs as nat, match stderr_msg {
            Some(m) => Some(m@),
            None => None,
        }),
{
    let mut r = text("failed to boot in ");
    push_dec(&mut r, waited_secs);
    r.append("s");
    if let Some(m) = stderr_msg {
        r.append("\nstderr:\n");
        r.append(m);
    }
    r
}

/// Why a machine could not be booted.
pub enum BootError {
    /// It did not come up; the text says how.
    Boot(String),
    /// Qemu could not be spawned; the text is the system's error.
    Spawn(String),
    /// No host port was free for ssh.
    NoFreePort,
}

impl BootError {
    /// The message of the error.
    pub open spec fn message(&self) -> Seq<char> {
        match self {
            BootError::Boot(s) => "boot: "@ + s@,
            BootError::Spawn(s) => "spawn: "@ + s@,
            BootError::NoFreePort => "no port to spawn qemu"@,
        }
    }

    /// The message of the error.
    pub fn to_string(&self) -> (r: String)
        ensures
            r@ == self.message(),
    {
        match self {
            BootError::Boot(s) => text("boot: ").concat(s.as_str()),
            BootError::Spawn(s) => text("spawn: ").concat(s.as_str()),
            BootError::NoFreePort => text("no port to spawn qemu"),
        }
    }
}

/// Longest wait for qemu to write its crash log, in milliseconds.
pub const CRASH_LOG_WAIT_MS: u64 = 15000;

/// Progress of waiting for qemu to finish writing a crash log.
pub struct CrashLogWait {
    waited_ms: u64,
}

impl CrashLogWait {
    /// Milliseconds waited so far.
    pub closed spec fn waited(&self) -> nat {
        self.waited_ms as nat
    }

    /// The wait goes in steps of 100ms and stops at 15 seconds.
    pub closed spec fn wf(&self) -> bool {
        self.waited_ms <= CRASH_LOG_WAIT_MS && self.waited_ms % 100 == 0
    }

    /// Nothing waited yet.
    pub fn new() -> (r: Self)
        ensures
            r.wf(),
            r.waited() == 0,
    {
        CrashLogWait { waited_ms: 0 }
    }

    /// Whether to pause another 100ms: only while qemu still runs and less
    /// than 15 seconds have passed. A pause is counted when one is asked for.
    pub fn pause_again(&mut self, qemu_running: bool) -> (r: bool)
        requires
            old(self).wf(),
        ensures
            final(self).wf(),
            r == (qemu_running && old(self).waited() < CRASH_LOG_WAIT_MS),
            r ==> final(self).waited() == old(self).waited() + 100,
            !r ==> final(self).waited() == old(self).waited(),
    {
        if qemu_running && self.waited_ms < CRASH_LOG_WAIT_MS {
            self.waited_ms = self.waited_ms + 100;
            true
        } else {
            false
        }
    }
}

} // verus!

//! Configuration of the qemu virtual machines and its checks.
//!
//! Whether an image path names a file, and what `qemu --version` prints, are
//! found by the caller; the checks here decide what that means.
use crate::strings::{first_char, is_ws, is_ws_char, str_chars};
use vstd::prelude::*;

verus! {

/// Lowest major version of qemu that works.
pub const MIN_QEMU_VERSION: u32 = 4;

/// Configuration of booting qemu.
pub struct QemuConfig {
    /// Booting target, such as linux/amd64.
    pub target: String,
    /// Path to the kernel image.
    pub kernel_img: Option<String>,
    /// Path to the disk image to boot.
    pub disk_img: String,
    /// Path to the ssh secret key to log in to the os under test.
    pub ssh_key: String,
    /// User to log in to the os under test.
    pub ssh_user: String,
    /// Number of cpus.
    pub qemu_smp: u32,
    /// Memory size in megabytes.
    pub qemu_mem: u32,
    /// Shared memory device files and their sizes.
    pub shmids: Vec<(String, usize)>,
    /// Socket based serial ports: path and port number.
    pub serial_ports: Vec<(String, u8)>,
}

/// What is wrong with a qemu configuration.
pub enum QemuConfigError {
    UnsupportedTarget(String),
    InvalidPath(String),
    EmptySshUser,
    InvalidMemSize { sz: usize, reason: String },
    InvalidCpuNumber { sz: usize, reason: String },
    SockAddrInUse(String),
    BadPort(u8),
    QemuCheckFailed(String),
}

/// The targets qemu can boot.
pub open spec fn supported_target(t: Seq<char>) -> bool {
    ||| t == "linux/386"@
    ||| t == "linux/amd64"@
    ||| t == "linux/arm"@
    ||| t == "linux/arm64"@
    ||| t == "linux/mips64le"@
    ||| t == "linux/ppc64le"@
    ||| t == "linux/riscv64"@
    ||| t == "linux/s390"@
}

fn eq_lit(s: &String, lit: &str) -> (r: bool)
    ensures
        r == (s@ == lit@),
{
    let l = String::from_str(lit);
    *s == l
}

/// Whether qemu can boot `target`.
pub fn is_supported_target(target: &String) -> (r: bool)
    ensures
        r == supported_target(target@),
{
    eq_lit(target, "linux/386") || eq_lit(target, "linux/amd64") || eq_lit(target, "linux/arm") || eq_lit(
        target,
        "linux/arm64",
    ) || eq_lit(target, "linux/mips64le") || eq_lit(target, "linux/ppc64le") || eq_lit(target, "linux/riscv64")
        || eq_lit(target, "linux/s390")
}

/// What the file system says about the paths of a configuration.
pub struct PathFacts {
    pub disk_img_is_file: bool,
    /// Meaningful only when there is a kernel image.
    pub kernel_img_is_file: bool,
    pub ssh_key_is_file: bool,
    /// Whether each serial port's path exists, in order.
    pub serial_path_exists: Vec<bool>,
}

/// The kind of the first problem of a configuration, given what the file
/// system says of its paths: in this order an unsupported target, a disk
/// image, kernel image or ssh key that is no file, an empty ssh user, a cpu
/// number outside 1..=1024, a memory size outside 128..=1048576, and then,
/// port by port, a socket path that exists or a port above 30. Its payload:
/// see `check`.
pub open spec fn config_problem(cfg: QemuConfig, facts: PathFacts) -> Option<int> {
    if !supported_target(cfg.target@) {
        Some(0int)
    } else if !facts.disk_img_is_file {
        Some(1int)
    } else if cfg.kernel_img is Some && !facts.kernel_img_is_file {
        Some(2int)
    } else if !facts.ssh_key_is_file {
        Some(3int)
    } else if cfg.ssh_user@.len() == 0 {
        Some(4int)
    } else if cfg.qemu_smp == 0 || cfg.qemu_smp > 1024 {
        Some(5int)
    } else if cfg.qemu_mem < 128 || cfg.qemu_mem > 1048576 {
        Some(6int)
    } else {
        match first_bad_port(cfg.serial_ports@, facts.serial_path_exists@) {
            Some(i) => if facts.serial_path_exists@[i] {
                Some(7int)
            } else {
                Some(8int)
            },
            None => None,
        }
    }
}

/// The first serial port whose path exists or whose number is above 30.
pub open spec fn first_bad_port(ports: Seq<(String, u8)>, taken: Seq<bool>) -> Option<int>
    decreases ports.len(),
{
    if ports.len() == 0 {
        None
    } else {
        match first_bad_port(ports.drop_last(), taken) {
            Some(i) => Some(i),
            None => if taken[ports.len() - 1] || ports.last().1 > 30 {
                Some(ports.len() - 1)
            } else {
                None
            },
        }
    }
}

proof fn lemma_first_bad_port(ports: Seq<(String, u8)>, taken: Seq<bool>, i: int)
    requires
        0 <= i <= ports.len(),
        ports.len() <= taken.len(),
        forall|j: int| 0 <= j < i ==> !(#[trigger] taken[j]),
        forall|j: int| 0 <= j < i ==> (#[trigger] ports[j]).1 <= 30,
    ensures
        i < ports.len() && (taken[i] || ports[i].1 > 30) ==> first_bad_port(ports, taken) == Some(i),
        i == ports.len() ==> first_bad_port(ports, taken) is None,
    decreases ports.len(),
{
    if ports.len() > 0 {
        let d = ports.drop_last();
        assert forall|j: int| 0 <= j < d.len() implies d[j] == ports[j] by {}
        if i < ports.len() {
            if i < ports.len() - 1 {
                lemma_first_bad_port(d, taken, i);
            } else {
                lemma_first_bad_port(d, taken, d.len() as int);
            }
        } else {
            lemma_first_bad_port(d, taken, d.len() as int);
        }
    }
}

/// `e` is the error that `check` gives for the first problem of `cfg`
/// (see `config_problem`), carrying the offending path, number or port.
pub open spec fn qemu_error_for(cfg: QemuConfig, facts: PathFacts, e: QemuConfigError) -> bool {
    match config_problem(cfg, facts) {
        None => false,
        Some(k) => if k == 0 {
            e matches QemuConfigError::UnsupportedTarget(t) && t@ == cfg.target@
        } else if k == 1 {
            e matches QemuConfigError::InvalidPath(p) && p@ == cfg.disk_img@
        } else if k == 2 {
            e matches QemuConfigError::InvalidPath(p) && p@ == cfg.kernel_img->0@
        } else if k == 3 {
            e matches QemuConfigError::InvalidPath(p) && p@ == cfg.ssh_key@
        } else if k == 4 {
            e is EmptySshUser
        } else if k == 5 {
            e matches QemuConfigError::InvalidCpuNumber { sz, reason } && sz == cfg.qemu_smp && reason@
                == "should be in range [1-1024]"@
        } else if k == 6 {
            e matches QemuConfigError::InvalidMemSize { sz, reason } && sz == cfg.qemu_mem && reason@
                == "should be in range [128-1048576]"@
        } else if k == 7 {
            e matches QemuConfigError::SockAddrInUse(p) && p@ == cfg.serial_ports@[first_bad_port(
                cfg.serial_ports@,
                facts.serial_path_exists@,
            )->0].0@
        } else {
            e matches QemuConfigError::BadPort(p) && p == cfg.serial_ports@[first_bad_port(
                cfg.serial_ports@,
                facts.serial_path_exists@,
            )->0].1
        },
    }
}

impl QemuConfig {
    /// Checks the configuration (see `config_problem`); the error carries
    /// the offending path, number or port. The qemu version is checked
    /// apart (see `qemu_version_check`).
    pub fn check(&self, facts: &PathFacts) -> (r: Result<(), QemuConfigError>)
        requires
            facts.serial_path_exists@.len() == self.serial_ports@.len(),
        ensures
            config_problem(*self, *facts) is None <==> r is Ok,
            r matches Err(e) ==> qemu_error_for(*self, *facts, e),
            config_problem(*self, *facts) == Some(0int) ==> (r matches Err(QemuConfigError::UnsupportedTarget(t)) && t@ == self.target@),
            config_problem(*self, *facts) == Some(1int) ==> (r matches Err(QemuConfigError::InvalidPath(p)) && p@ == self.disk_img@),
            config_problem(*self, *facts) == Some(2int) ==> (r matches Err(QemuConfigError::InvalidPath(p)) && p@ == self.kernel_img->0@),
            config_problem(*self, *facts) == Some(3int) ==> (r matches Err(QemuConfigError::InvalidPath(p)) && p@ == self.ssh_key@),
            config_problem(*self, *facts) == Some(4int) ==> r matches Err(QemuConfigError::EmptySshUser),
            config_problem(*self, *facts) == Some(5int) ==> (r matches Err(QemuConfigError::InvalidCpuNumber { sz, reason }) && sz == self.qemu_smp && reason@ == "should be in range [1-1024]"@),
            config_problem(*self, *facts) == Some(6int) ==> (r matches Err(QemuConfigError::InvalidMemSize { sz, reason }) && sz == self.qemu_mem && reason@ == "should be in range [128-1048576]"@),
            config_problem(*self, *facts) == Some(7int) ==> (r matches Err(QemuConfigError::SockAddrInUse(p)) && p@ == self.serial_ports@[first_bad_port(self.serial_ports@, facts.serial_path_exists@)->0].0@),
            config_problem(*self, *facts) == Some(8int) ==> (r matches Err(QemuConfigError::BadPort(p)) && p == self.serial_ports@[first_bad_port(self.serial_ports@, facts.serial_path_exists@)->0].1),
    {
        if !is_supported_target(&self.target) {
            return Err(QemuConfigError::UnsupportedTarget(self.target.clone()));
        }
        if !facts.disk_img_is_file {
            return Err(QemuConfigError::InvalidPath(self.disk_img.clone()));
        }
        match &self.kernel_img {
            Some(k) => {
                if !facts.kernel_img_is_file {
                    return Err(QemuConfigError::InvalidPath(k.clone()));
                }
            },
            None => {},
        }
        if !facts.ssh_key_is_file {
            return Err(QemuConfigError::InvalidPath(self.ssh_key.clone()));
        }
        if self.ssh_user.as_str().is_empty() {
            return Err(QemuConfigError::EmptySshUser);
        }
        if self.qemu_smp == 0 || self.qemu_smp > 1024 {
            return Err(
                QemuConfigError::InvalidCpuNumber {
                    sz: self.qemu_smp as usize,
                    reason: String::from_str("should be in range [1-1024]"),
                },
            );
        }
        if self.qemu_mem < 128 || self.qemu_mem > 1048576 {
            return Err(
                QemuConfigError::InvalidMemSize {
                    sz: self.qemu_mem as usize,
                    reason: String::from_str("should be in range [128-1048576]"),
                },
            );
        }
        let mut i: usize = 0;
        while i < self.serial_ports.len()
            invariant
                i <= self.serial_ports@.len(),
                facts.serial_path_exists@.len() == self.serial_ports@.len(),
                supported_target(self.target@),
                facts.disk_img_is_file,
                self.kernel_img is Some ==> facts.kernel_img_is_file,
                facts.ssh_key_is_file,
                self.ssh_user@.len() > 0,
                1 <= self.qemu_smp <= 1024,
                128 <= self.qemu_mem <= 1048576,
                forall|j: int| 0 <= j < i ==> !(#[trigger] facts.serial_path_exists@[j]),
                forall|j: int| 0 <= j < i ==> (#[trigger] self.serial_ports@[j]).1 <= 30,
            decreases self.serial_ports.len() - i,
        {
            let (p, port) = &self.serial_ports[i];
            if facts.serial_path_exists[i] {
                proof {
                    lemma_first_bad_port(self.serial_ports@, facts.serial_path_exists@, i as int);
                }
                return Err(QemuConfigError::SockAddrInUse(p.clone()));
            }
            if *port > 30 {
                proof {
                    lemma_first_bad_port(self.serial_ports@, facts.serial_path_exists@, i as int);
                }
                return Err(QemuConfigError::BadPort(*port));
            }
            i = i + 1;
        }
        proof {
            lemma_first_bad_port(self.serial_ports@, facts.serial_path_exists@, i as int);
        }
        Ok(())
    }

    /// Adds a shared memory device named `shm_id` under `/dev/shm` (an
    /// absolute `shm_id` is taken as is), of `sz` bytes.
    pub fn add_shm(&mut self, shm_id: &str, sz: usize)
        ensures
            final(self).shmids@.len() == old(self).shmids@.len() + 1,
            forall|i: int| 0 <= i < old(self).shmids@.len() ==> final(self).shmids@[i] == old(self).shmids@[i],
            final(self).shmids@.last().1 == sz,
            final(self).shmids@.last().0@ == shm_path(shm_id@),
            final(self).target == old(self).target,
            final(self).kernel_img == old(self).kernel_img,
            final(self).disk_img == old(self).disk_img,
            final(self).ssh_key == old(self).ssh_key,
            final(self).ssh_user == old(self).ssh_user,
            final(self).qemu_smp == old(self).qemu_smp,
            final(self).qemu_mem == old(self).qemu_mem,
            final(self).serial_ports == old(self).serial_ports,
    {
        let p = if first_char(shm_id) == Some('/') {
            shm_id.to_owned()
        } else {
            let base = String::from_str("/dev/shm/");
            base.concat(shm_id)
        };
        self.shmids.push((p, sz));
    }
}

/// Path of the shared memory device `id`: `id` itself when absolute, else
/// under `/dev/shm`.
pub open spec fn shm_path(id: Seq<char>) -> Seq<char> {
    if id.len() > 0 && id[0] == '/' {
        id
    } else {
        "/dev/shm/"@ + id
    }
}

impl Default for QemuConfig {
    /// linux/amd64 with ./bzImage, ./stretch.img and ./stretch.id_rsa,
    /// user root, 2 cpus and 4096M of memory, no shared memory and no
    /// serial ports.
    fn default() -> (r: Self)
        ensures
            r.target@ == "linux/amd64"@,
            r.kernel_img matches Some(k) && k@ == "./bzImage"@,
            r.disk_img@ == "./stretch.img"@,
            r.ssh_key@ == "./stretch.id_rsa"@,
            r.ssh_user@ == "root"@,
            r.qemu_smp == 2,
            r.qemu_mem == 4096,
            r.shmids@.len() == 0,
            r.serial_ports@.len() == 0,
    {
        QemuConfig {
            target: String::from_str("linux/amd64"),
            kernel_img: Some(String::from_str("./bzImage")),
            disk_img: String::from_str("./stretch.img"),
            ssh_key: String::from_str("./stretch.id_rsa"),
            ssh_user: String::from_str("root"),
            qemu_smp: 2,
            qemu_mem: 4096,
            shmids: Vec::new(),
            serial_ports: Vec::new(),
        }
    }
}

/// What the output of `qemu --version` tells.
#[derive(Debug, Clone, Copy, PartialEq, Eq, Structural)]
pub enum QemuVersion {
    /// The major version is `MIN_QEMU_VERSION` or later.
    Supported,
    /// The major version is older.
    TooOld(u32),
    /// No digit follows the word "version".
    Unparsable,
    /// The command did not succeed.
    Failed,
}

/// The word "version".
pub open spec fn version_word() -> Seq<char> {
    seq!['v', 'e', 'r', 's', 'i', 'o', 'n']
}

/// "version" starts at `i`.
pub open spec fn version_at(s: Seq<char>, i: int) -> bool {
    0 <= i && i + 7 <= s.len() && s.subrange(i, i + 7) == version_word()
}

/// Where the first "version" starts.
pub open spec fn first_version(s: Seq<char>) -> Option<int> {
    if exists|i: int| #[trigger] version_at(s, i) {
        Some(choose|i: int| version_at(s, i) && forall|j: int| 0 <= j < i ==> !#[trigger] version_at(s, j))
    } else {
        None
    }
}

/// The first character of `s` that is not white space.
pub open spec fn first_non_ws(s: Seq<char>) -> Option<char>
    decreases s.len(),
{
    if s.len() == 0 {
        None
    } else if is_ws(s[0]) {
        first_non_ws(s.drop_first())
    } else {
        Some(s[0])
    }
}

/// The verdict on the output of `qemu --version`: the first character
/// after the first "version", white space skipped, is the major version.
pub open spec fn version_verdict(succeeded: bool, s: Seq<char>) -> QemuVersion {
    if !succeeded {
        QemuVersion::Failed
    } else {
        match first_version(s) {
            None => QemuVersion::Unparsable,
            Some(i) => match first_non_ws(s.skip(i + 7)) {
                Some(c) => if '0' <= c <= '9' {
                    let major = (c as u32 - '0' as u32) as u32;
                    if major < MIN_QEMU_VERSION {
                        QemuVersion::TooOld(major)
                    } else {
                        QemuVersion::Supported
                    }
                } else {
                    QemuVersion::Unparsable
                },
                None => QemuVersion::Unparsable,
            },
        }
    }
}

/// Judges the output of `qemu --version` (see `version_verdict`).
pub fn qemu_version_check(succeeded: bool, output: &str) -> (r: QemuVersion)
    ensures
        r == version_verdict(succeeded, output@),
{
    if !succeeded {
        return QemuVersion::Failed;
    }
    let s = str_chars(output);
    let word: [char; 7] = ['v', 'e', 'r', 's', 'i', 'o', 'n'];
    let n = s.len();
    let mut i: usize = 0;
    let mut found = false;
    while i < n && n - i >= 7
        invariant_except_break
            !found,
        invariant
            n == s@.len(),
            i <= n,
            s@ == output@,
            word@ == version_word(),
            forall|j: int| 0 <= j < i ==> !#[trigger] version_at(s@, j),
        ensures
            i <= n,
            found ==> version_at(s@, i as int),
            !found ==> forall|j: int| 0 <= j ==> !#[trigger] version_at(s@, j),
            forall|j: int| 0 <= j < i ==> !#[trigger] version_at(s@, j),
        decreases n - i,
    {
        let mut k: usize = 0;
        while k < 7
            invariant
                n == s@.len(),
                i + 7 <= n,
                k <= 7,
                word@ == version_word(),
                forall|m: int| 0 <= m < k ==> s@[i + m] == word@[m],
            ensures
                k <= 7,
                forall|m: int| 0 <= m < k ==> s@[i + m] == word@[m],
                k < 7 ==> s@[i + k] != word@[k as int],
            decreases 7 - k,
        {
            if s[i + k] != word[k] {
                break;
            }
            k = k + 1;
        }
        if k == 7 {
            proof {
                assert(s@.subrange(i as int, i + 7) =~= version_word());
            }
            found = true;
            break;
        }
        proof {
            if version_at(s@, i as int) {
                assert(s@.subrange(i as int, i + 7)[k as int] == s@[i + k]);
            }
        }
        i = i + 1;
    }
    if !found {
        return QemuVersion::Unparsable;
    }
    proof {
        assert(version_at(s@, i as int) && forall|j: int| 0 <= j < i ==> !#[trigger] version_at(s@, j));
        let c = choose|j: int| version_at(s@, j) && forall|m: int| 0 <= m < j ==> !#[trigger] version_at(s@, m);
        if c < i {
        } else if c > i {
        }
        assert(first_version(s@) == Some(i as int));
    }
    let mut p: usize = i + 7;
    while p < s.len() && is_ws_char(s[p])
        invariant
            i + 7 <= p <= s@.len(),
            first_non_ws(s@.skip(i + 7)) == first_non_ws(s@.skip(p as int)),
        decreases s.len() - p,
    {
        proof {
            assert(s@.skip(p as int).drop_first() =~= s@.skip(p + 1));
        }
        p = p + 1;
    }
    if p == s.len() {
        return QemuVersion::Unparsable;
    }
    let c = s[p];
    if '0' <= c && c <= '9' {
        let major = (c as u32) - ('0' as u32);
        if major < MIN_QEMU_VERSION {
            QemuVersion::TooOld(major)
        } else {
            QemuVersion::Supported
        }
    } else {
        QemuVersion::Unparsable
    }
}

} // verus!

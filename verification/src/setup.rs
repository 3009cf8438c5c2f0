//! What a fuzzer instance sets up for its executor: the names of its shared
//! memory devices and unix sockets, and its share of the input programs.
//!
//! Creating the devices and sockets is left to the caller.
use crate::qemu::{shm_path, QemuConfig};
use crate::strings::{dec_chars, push_dec};
use vstd::prelude::*;

verus! {

/// Serial port of the executor's stdin socket.
pub const PORT_STDIN: u8 = 30;

/// Serial port of the executor's stdout socket.
pub const PORT_STDOUT: u8 = 29;

/// Serial port of the executor's stderr socket.
pub const PORT_STDERR: u8 = 28;

/// Path of the socket of the executor's `stream` of fuzzer `fuzzer_id` in
/// process `pid`.
pub open spec fn exec_sock_path(stream: Seq<char>, pid: u32, fuzzer_id: u64) -> Seq<char> {
    "/tmp/healer-exec-"@ + stream + "-"@ + dec_chars(pid as nat) + "-"@ + dec_chars(fuzzer_id as nat)
}

fn sock_path(stream: &str, pid: u32, fuzzer_id: u64) -> (r: String)
    ensures
        r@ == exec_sock_path(stream@, pid, fuzzer_id),
{
    let mut s = String::from_str("/tmp/healer-exec-");
    s.append(stream);
    s.append("-");
    push_dec(&mut s, pid as u64);
    s.append("-");
    push_dec(&mut s, fuzzer_id as u64);
    s
}

/// The fields of `a` and `b` but the serial ports and shared memory devices
/// are the same.
pub open spec fn same_but_devices(a: QemuConfig, b: QemuConfig) -> bool {
    &&& a.target == b.target
    &&& a.kernel_img == b.kernel_img
    &&& a.disk_img == b.disk_img
    &&& a.ssh_key == b.ssh_key
    &&& a.ssh_user == b.ssh_user
    &&& a.qemu_smp == b.qemu_smp
    &&& a.qemu_mem == b.qemu_mem
}

/// Adds the sockets of the executor's stdin, stdout and stderr of fuzzer
/// `fuzzer_id` in process `pid` as serial ports 30, 29 and 28, and gives
/// back their paths.
pub fn setup_unix_sock(cfg: &mut QemuConfig, fuzzer_id: u64, pid: u32) -> (r: (String, String, String))
    ensures
        r.0@ == exec_sock_path("stdin"@, pid, fuzzer_id),
        r.1@ == exec_sock_path("stdout"@, pid, fuzzer_id),
        r.2@ == exec_sock_path("stderr"@, pid, fuzzer_id),
        final(cfg).serial_ports@ == old(cfg).serial_ports@ + seq![
            (r.0, PORT_STDIN),
            (r.1, PORT_STDOUT),
            (r.2, PORT_STDERR),
        ],
        final(cfg).shmids == old(cfg).shmids,
        same_but_devices(*final(cfg), *old(cfg)),
{
    let stdin = sock_path("stdin", pid, fuzzer_id);
    let stdout = sock_path("stdout", pid, fuzzer_id);
    let stderr = sock_path("stderr", pid, fuzzer_id);
    cfg.serial_ports.push((stdin.clone(), PORT_STDIN));
    cfg.serial_ports.push((stdout.clone(), PORT_STDOUT));
    cfg.serial_ports.push((stderr.clone(), PORT_STDERR));
    proof {
        assert(cfg.serial_ports@ =~= old(cfg).serial_ports@ + seq![
            (stdin, PORT_STDIN),
            (stdout, PORT_STDOUT),
            (stderr, PORT_STDERR),
        ]);
    }
    (stdin, stdout, stderr)
}

/// Name of the input shared memory of fuzzer `fuzzer_id` in process `pid`.
pub open spec fn in_shm_id(fuzzer_id: u64, pid: u32) -> Seq<char> {
    "healer-in_shm-"@ + dec_chars(fuzzer_id as nat) + "-"@ + dec_chars(pid as nat)
}

/// Name of the output shared memory of fuzzer `fuzzer_id` in process `pid`.
pub open spec fn out_shm_id(fuzzer_id: u64, pid: u32) -> Seq<char> {
    "healer-out_shm_"@ + dec_chars(fuzzer_id as nat) + "-"@ + dec_chars(pid as nat)
}

/// Replaces the shared memory devices by the input one, of `in_sz` bytes,
/// and the output one, of `out_sz` bytes, of fuzzer `fuzzer_id` in process
/// `pid`; gives back their names.
pub fn setup_fuzzer_shm(cfg: &mut QemuConfig, fuzzer_id: u64, pid: u32, in_sz: usize, out_sz: usize) -> (r: (
    String,
    String,
))
    ensures
        r.0@ == in_shm_id(fuzzer_id, pid),
        r.1@ == out_shm_id(fuzzer_id, pid),
        final(cfg).shmids@.len() == 2,
        final(cfg).shmids@[0].0@ == shm_path(r.0@),
        final(cfg).shmids@[0].1 == in_sz,
        final(cfg).shmids@[1].0@ == shm_path(r.1@),
        final(cfg).shmids@[1].1 == out_sz,
        final(cfg).serial_ports == old(cfg).serial_ports,
        same_but_devices(*final(cfg), *old(cfg)),
{
    let mut in_id = String::from_str("healer-in_shm-");
    push_dec(&mut in_id, fuzzer_id);
    in_id.append("-");
    push_dec(&mut in_id, pid as u64);
    let mut out_id = String::from_str("healer-out_shm_");
    push_dec(&mut out_id, fuzzer_id);
    out_id.append("-");
    push_dec(&mut out_id, pid as u64);
    cfg.shmids.clear();
    cfg.add_shm(in_id.as_str(), in_sz);
    cfg.add_shm(out_id.as_str(), out_sz);
    (in_id, out_id)
}

/// `s` cut into pieces of `m` items, the last one possibly shorter.
pub open spec fn chunks_of<T>(s: Seq<T>, m: nat) -> Seq<Seq<T>>
    decreases s.len(),
{
    if s.len() == 0 || m == 0 {
        Seq::empty()
    } else if s.len() <= m {
        seq![s]
    } else {
        seq![s.take(m as int)] + chunks_of(s.skip(m as int), m)
    }
}

proof fn lemma_chunks_flatten<T>(s: Seq<T>, m: nat)
    requires
        m > 0,
    ensures
        chunks_of(s, m).flatten() == s,
    decreases s.len(),
{
    let c = chunks_of(s, m);
    if s.len() == 0 {
        assert(c =~= Seq::<Seq<T>>::empty());
        assert(s =~= Seq::<T>::empty());
    } else if s.len() <= m {
        assert(c == seq![s]);
        assert(c.drop_first() =~= Seq::<Seq<T>>::empty());
        assert(c.flatten() == c.first() + c.drop_first().flatten());
        assert(s + Seq::<T>::empty() =~= s);
    } else {
        lemma_chunks_flatten(s.skip(m as int), m);
        assert(c.first() == s.take(m as int));
        assert(c.drop_first() =~= chunks_of(s.skip(m as int), m));
        assert(c.flatten() == c.first() + c.drop_first().flatten());
        assert(s.take(m as int) + s.skip(m as int) =~= s);
    }
}

proof fn lemma_chunks_count<T>(s: Seq<T>, m: nat)
    requires
        m > 0,
    ensures
        s.len() <= chunks_of(s, m).len() * m,
        s.len() > 0 ==> (chunks_of(s, m).len() - 1) * m < s.len(),
    decreases s.len(),
{
    if s.len() == 0 {
    } else if s.len() <= m {
        assert(chunks_of(s, m).len() == 1);
        assert((1 - 1) * m == 0) by (nonlinear_arith);
        assert(1 * m == m) by (nonlinear_arith);
    } else {
        let rest = s.skip(m as int);
        lemma_chunks_count(rest, m);
        let k = chunks_of(rest, m).len();
        assert(chunks_of(s, m).len() == k + 1);
        assert(rest.len() == s.len() - m);
        assert(s.len() <= (k + 1) * m) by (nonlinear_arith)
            requires
                rest.len() <= k * m,
                rest.len() == s.len() - m,
        ;
        assert(k * m < s.len()) by (nonlinear_arith)
            requires
                rest.len() > 0 ==> (k - 1) * m < rest.len(),
                rest.len() > 0,
                rest.len() == s.len() - m,
        ;
        assert((chunks_of(s, m).len() - 1) * m == k * m);
    }
}

/// Sharing out hands each program to exactly one fuzzer, in order, and
/// needs no more than `job` pieces.
pub proof fn lemma_split_input_progs<T>(s: Seq<T>, job: nat)
    requires
        job > 0,
    ensures
        chunks_of(s, ((s.len() + job - 1) / (job as int)) as nat).flatten() == s,
        chunks_of(s, ((s.len() + job - 1) / (job as int)) as nat).len() <= job,
{
    let m = ((s.len() + job - 1) / (job as int)) as nat;
    if s.len() > 0 {
        assert(m > 0 && s.len() <= m * job) by (nonlinear_arith)
            requires
                s.len() > 0,
                job > 0,
                m == (s.len() + job - 1) / (job as int),
        ;
        lemma_chunks_flatten(s, m);
        lemma_chunks_count(s, m);
        let c = chunks_of(s, m).len();
        assert(c <= job) by (nonlinear_arith)
            requires
                (c - 1) * m < s.len(),
                s.len() <= m * job,
                m > 0,
        ;
    } else {
        assert(chunks_of(s, m) == Seq::<Seq<T>>::empty());
        assert(Seq::<Seq<T>>::empty().flatten() =~= Seq::<T>::empty());
        assert(s =~= Seq::<T>::empty());
    }
}

/// Shares `progs` out among `job` fuzzers: in order, in pieces of as many
/// programs as `job` pieces need at most (fewer pieces when programs are
/// few); none when there are no programs.
pub fn split_input_progs<T>(progs: Vec<T>, job: u64) -> (r: Vec<Vec<T>>)
    requires
        job > 0,
        progs@.len() + job <= usize::MAX,
    ensures
        r@.map_values(|c: Vec<T>| c@) == chunks_of(progs@, ((progs@.len() + job - 1) / (job as int)) as nat),
{
    if progs.len() == 0 {
        let r: Vec<Vec<T>> = Vec::new();
        proof {
            assert(r@.map_values(|c: Vec<T>| c@) =~= Seq::<Seq<T>>::empty());
        }
        return r;
    }
    let job = job as usize;
    let n = progs.len() + job - 1;
    let m = n / job;
    let ghost all = progs@;
    let ghost mm = m as nat;
    let mut out: Vec<Vec<T>> = Vec::new();
    let mut rest = progs;
    let ghost mut done: int = 0;
    proof {
        assert(m >= 1) by (nonlinear_arith)
            requires
                n >= job,
                job > 0,
                m == n / job,
        ;
        assert(all.skip(0) =~= all);
        assert(out@.map_values(|c: Vec<T>| c@) + chunks_of(all, mm) =~= chunks_of(all, mm));
    }
    while rest.len() > 0
        invariant
            m >= 1,
            mm == m,
            0 <= done <= all.len(),
            rest@ == all.skip(done),
            out@.map_values(|c: Vec<T>| c@) + chunks_of(rest@, mm) == chunks_of(all, mm),
        decreases rest@.len(),
    {
        let ghost before = rest@;
        let ghost prev = out@;
        if rest.len() <= m {
            let piece = rest;
            rest = Vec::new();
            out.push(piece);
            proof {
                assert(chunks_of(before, mm) == seq![before]);
                assert(out@.map_values(|c: Vec<T>| c@) =~= prev.map_values(|c: Vec<T>| c@).push(before));
                assert(rest@ =~= all.skip(all.len() as int));
                assert(chunks_of(rest@, mm) =~= Seq::<Seq<T>>::empty());
                assert(out@.map_values(|c: Vec<T>| c@) + chunks_of(rest@, mm) =~= prev.map_values(|c: Vec<T>| c@)
                    + chunks_of(before, mm));
                done = all.len() as int;
            }
        } else {
            let tail = rest.split_off(m);
            let piece = rest;
            rest = tail;
            out.push(piece);
            proof {
                assert(piece@ =~= before.take(m as int));
                assert(rest@ =~= before.skip(m as int));
                assert(chunks_of(before, mm) == seq![before.take(m as int)] + chunks_of(before.skip(m as int), mm));
                assert(out@.map_values(|c: Vec<T>| c@) =~= prev.map_values(|c: Vec<T>| c@).push(piece@));
                assert(out@.map_values(|c: Vec<T>| c@) + chunks_of(rest@, mm) =~= prev.map_values(|c: Vec<T>| c@)
                    + chunks_of(before, mm));
                assert(all.skip(done).skip(m as int) =~= all.skip(done + m));
                done = done + m;
            }
        }
    }
    proof {
        assert(chunks_of(rest@, mm) =~= Seq::<Seq<T>>::empty());
        assert(out@.map_values(|c: Vec<T>| c@) =~= out@.map_values(|c: Vec<T>| c@) + chunks_of(rest@, mm));
    }
    out
}

/// Whether to try a failed step again after `tried` retries: at most three
/// times, and not once the fuzzer is asked to stop.
pub fn retry_again(tried: u32, stop_soon: bool) -> (r: bool)
    ensures
        r == (tried < 3 && !stop_soon),
{
    tried < 3 && !stop_soon
}

} // verus!

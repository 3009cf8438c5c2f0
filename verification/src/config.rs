//! Configuration of the fuzzer and its checks.
//!
//! What the file system says of the configured paths, whether the target
//! is supported and the lines of the fault injection whitelist are found
//! by the caller; the checks here decide, in order, what is wrong, and
//! compile the fault injection patterns.
use crate::qemu::{config_problem, qemu_error_for, PathFacts, QemuConfig, QemuConfigError};
use crate::strings::{lemma_strs_push, strs_view};
use regex::RegexSet;
use vstd::prelude::*;

verus! {

#[verifier::external_type_specification]
#[verifier::external_body]
pub struct ExRegexSet(RegexSet);

#[verifier::external_type_specification]
#[verifier::external_body]
pub struct ExRegexError(regex::Error);

/// Whether `regex::RegexSet::new` builds a set from these patterns.
pub uninterp spec fn regex_set_compiles(patterns: Seq<Seq<char>>) -> bool;

/// `regex::RegexSet::new` on the patterns: it builds one set of them, or
/// fails when one is no valid regular expression or the set is too large
/// to build; which of the two depends on the patterns alone. What the set
/// matches is left unsaid: the library only keeps it.
#[verifier::external_body]
fn regex_set_new(patterns: &Vec<String>) -> (r: Result<RegexSet, regex::Error>)
    ensures
        r is Ok <==> regex_set_compiles(patterns.deep_view()),
{
    RegexSet::new(patterns.iter())
}

/// The non-empty lines, in order.
pub open spec fn nonempty_lines(lines: Seq<Seq<char>>) -> Seq<Seq<char>>
    decreases lines.len(),
{
    if lines.len() == 0 {
        lines
    } else if lines.last().len() == 0 {
        nonempty_lines(lines.drop_last())
    } else {
        nonempty_lines(lines.drop_last()).push(lines.last())
    }
}

/// The patterns of a fault injection whitelist: its non-empty lines.
pub fn fault_patterns(lines: &Vec<String>) -> (r: Vec<String>)
    ensures
        r.deep_view() == nonempty_lines(lines.deep_view()),
{
    let mut r: Vec<String> = Vec::new();
    let mut i: usize = 0;
    while i < lines.len()
        invariant
            i <= lines.len(),
            strs_view(r@) == nonempty_lines(strs_view(lines@.take(i as int))),
        decreases lines.len() - i,
    {
        proof {
            let t = lines@.take(i as int + 1);
            assert(t.drop_last() =~= lines@.take(i as int));
            assert(strs_view(t).drop_last() =~= strs_view(t.drop_last()));
        }
        if !lines[i].as_str().is_empty() {
            proof {
                lemma_strs_push(r@, lines@[i as int]);
            }
            r.push(lines[i].clone());
        }
        i = i + 1;
    }
    proof {
        assert(lines@.take(lines@.len() as int) =~= lines@);
        assert(r.deep_view() =~= strs_view(r@));
        assert(lines.deep_view() =~= strs_view(lines@));
    }
    r
}

/// Configuration of a fuzzing run.
pub struct FuzzerConfig {
    /// Kernel of the target os.
    pub os: String,
    /// Path to the file of known relations between syscalls.
    pub relations: Option<String>,
    /// Path to the directory of input programs.
    pub input: Option<String>,
    /// Path to the file of crashes to ignore.
    pub crash_whitelist: Option<String>,
    /// Path to the syzkaller directory.
    pub syz_dir: String,
    /// Path to the output directory.
    pub output: String,
    /// Path to the file of syscalls not to call.
    pub disabled_calls: Option<String>,
    /// Whether fault injection is off.
    pub disable_fault_injection: bool,
    /// Path to the file of syscalls fault injection is limited to.
    pub fault_injection_whitelist_path: Option<String>,
    /// Configuration of the virtual machines.
    pub qemu_config: QemuConfig,
    /// The fault injection patterns, compiled by `check`.
    pub fault_injection_regex: Option<RegexSet>,
}

/// What the caller found about a configuration. A fact about an optional
/// path is meaningful only when that path is configured.
pub struct FuzzerFacts {
    /// The target `os/arch` is one the executor supports.
    pub target_supported: bool,
    pub relations_is_file: bool,
    pub input_is_dir: bool,
    pub crash_whitelist_is_file: bool,
    pub syz_dir_is_dir: bool,
    /// `bin` exists in the syzkaller directory as a directory.
    pub bin_dir_is_dir: bool,
    /// `bin/<os>_<arch>` exists in the syzkaller directory as a directory.
    pub target_bin_dir_is_dir: bool,
    /// `syz-executor` exists in that directory.
    pub executor_exists: bool,
    pub output_exists: bool,
    pub output_is_dir: bool,
    pub disabled_calls_is_file: bool,
    pub fault_whitelist_is_file: bool,
    /// The lines of the fault injection whitelist file.
    pub fault_whitelist_lines: Vec<String>,
    /// What the file system says of the virtual machines' paths.
    pub qemu_paths: PathFacts,
    /// The reproduction settings are valid.
    pub repro_ok: bool,
    /// The report settings are valid.
    pub report_ok: bool,
}

/// What is wrong with a fuzzer configuration; a path, where one is named,
/// is the configured one.
pub enum FuzzerConfigError {
    UnsupportedTarget(String),
    BadRelations(String),
    BadInput(String),
    BadCrashWhitelist(String),
    BadSyzDir(String),
    NoBinDir,
    NoTargetBinDir,
    NoExecutor,
    OutputNotDir(String),
    BadDisabledCalls(String),
    FaultInjectionDisabled(String),
    BadFaultWhitelist(String),
    BadFaultPatterns(String),
    Qemu(QemuConfigError),
    BadRepro,
    BadReport,
}

/// The kinds of problem a fuzzer configuration can have.
pub enum FuzzerProblem {
    UnsupportedTarget,
    BadRelations,
    BadInput,
    BadCrashWhitelist,
    BadSyzDir,
    NoBinDir,
    NoTargetBinDir,
    NoExecutor,
    OutputNotDir,
    BadDisabledCalls,
    FaultInjectionDisabled,
    BadFaultWhitelist,
    BadFaultPatterns,
    Qemu,
    BadRepro,
    BadReport,
}

/// The first problem of a configuration, in the order the checks are
/// made: the target, the relations file, the input directory, the crash
/// whitelist, the syzkaller directory and the executor in it, the output
/// path (when it exists it must be a directory), the disabled calls file,
/// a fault injection whitelist given while fault injection is off, that
/// whitelist's file and patterns, then the virtual machines, reproduction
/// and report settings.
pub open spec fn fuzzer_config_problem(cfg: FuzzerConfig, facts: FuzzerFacts) -> Option<FuzzerProblem> {
    if !facts.target_supported {
        Some(FuzzerProblem::UnsupportedTarget)
    } else if cfg.relations is Some && !facts.relations_is_file {
        Some(FuzzerProblem::BadRelations)
    } else if cfg.input is Some && !facts.input_is_dir {
        Some(FuzzerProblem::BadInput)
    } else if cfg.crash_whitelist is Some && !facts.crash_whitelist_is_file {
        Some(FuzzerProblem::BadCrashWhitelist)
    } else if !facts.syz_dir_is_dir {
        Some(FuzzerProblem::BadSyzDir)
    } else if !facts.bin_dir_is_dir {
        Some(FuzzerProblem::NoBinDir)
    } else if !facts.target_bin_dir_is_dir {
        Some(FuzzerProblem::NoTargetBinDir)
    } else if !facts.executor_exists {
        Some(FuzzerProblem::NoExecutor)
    } else if facts.output_exists && !facts.output_is_dir {
        Some(FuzzerProblem::OutputNotDir)
    } else if cfg.disabled_calls is Some && !facts.disabled_calls_is_file {
        Some(FuzzerProblem::BadDisabledCalls)
    } else if cfg.disable_fault_injection && cfg.fault_injection_whitelist_path is Some {
        Some(FuzzerProblem::FaultInjectionDisabled)
    } else if cfg.fault_injection_whitelist_path is Some && !facts.fault_whitelist_is_file {
        Some(FuzzerProblem::BadFaultWhitelist)
    } else if cfg.fault_injection_whitelist_path is Some && nonempty_lines(facts.fault_whitelist_lines.deep_view()).len()
        > 0 && !regex_set_compiles(nonempty_lines(facts.fault_whitelist_lines.deep_view())) {
        Some(FuzzerProblem::BadFaultPatterns)
    } else if config_problem(cfg.qemu_config, facts.qemu_paths) is Some {
        Some(FuzzerProblem::Qemu)
    } else if !facts.repro_ok {
        Some(FuzzerProblem::BadRepro)
    } else if !facts.report_ok {
        Some(FuzzerProblem::BadReport)
    } else {
        None
    }
}

/// `e` is the error for the problem `p` of the configuration `cfg`; for
/// the virtual machines it carries the error their own check gives.
pub open spec fn error_for(cfg: FuzzerConfig, facts: FuzzerFacts, p: FuzzerProblem, e: FuzzerConfigError) -> bool {
    match p {
        FuzzerProblem::UnsupportedTarget => e matches FuzzerConfigError::UnsupportedTarget(s) && s@ == cfg.os@,
        FuzzerProblem::BadRelations => e matches FuzzerConfigError::BadRelations(s) && s@ == cfg.relations->0@,
        FuzzerProblem::BadInput => e matches FuzzerConfigError::BadInput(s) && s@ == cfg.input->0@,
        FuzzerProblem::BadCrashWhitelist => e matches FuzzerConfigError::BadCrashWhitelist(s) && s@
            == cfg.crash_whitelist->0@,
        FuzzerProblem::BadSyzDir => e matches FuzzerConfigError::BadSyzDir(s) && s@ == cfg.syz_dir@,
        FuzzerProblem::NoBinDir => e is NoBinDir,
        FuzzerProblem::NoTargetBinDir => e is NoTargetBinDir,
        FuzzerProblem::NoExecutor => e is NoExecutor,
        FuzzerProblem::OutputNotDir => e matches FuzzerConfigError::OutputNotDir(s) && s@ == cfg.output@,
        FuzzerProblem::BadDisabledCalls => e matches FuzzerConfigError::BadDisabledCalls(s) && s@
            == cfg.disabled_calls->0@,
        FuzzerProblem::FaultInjectionDisabled => e matches FuzzerConfigError::FaultInjectionDisabled(s) && s@
            == cfg.fault_injection_whitelist_path->0@,
        FuzzerProblem::BadFaultWhitelist => e matches FuzzerConfigError::BadFaultWhitelist(s) && s@
            == cfg.fault_injection_whitelist_path->0@,
        FuzzerProblem::BadFaultPatterns => e matches FuzzerConfigError::BadFaultPatterns(s) && s@
            == cfg.fault_injection_whitelist_path->0@,
        FuzzerProblem::Qemu => e matches FuzzerConfigError::Qemu(q) && qemu_error_for(
            cfg.qemu_config,
            facts.qemu_paths,
            q,
        ),
        FuzzerProblem::BadRepro => e is BadRepro,
        FuzzerProblem::BadReport => e is BadReport,
    }
}

/// The check gets past the fault injection patterns: no problem, or only
/// one of those checked after them.
pub open spec fn past_fault_patterns(cfg: FuzzerConfig, facts: FuzzerFacts) -> bool {
    match fuzzer_config_problem(cfg, facts) {
        None => true,
        Some(FuzzerProblem::Qemu) | Some(FuzzerProblem::BadRepro) | Some(FuzzerProblem::BadReport) => true,
        _ => false,
    }
}

/// The check compiles the fault injection patterns: a whitelist is given,
/// its patterns are not none, and the check gets past them.
pub open spec fn compiles_fault_patterns(cfg: FuzzerConfig, facts: FuzzerFacts) -> bool {
    &&& cfg.fault_injection_whitelist_path is Some
    &&& nonempty_lines(facts.fault_whitelist_lines.deep_view()).len() > 0
    &&& past_fault_patterns(cfg, facts)
}

impl FuzzerConfig {
    /// Checks the configuration (see `fuzzer_config_problem`): `Ok` when
    /// nothing is wrong, else the error for the first problem, which for
    /// the virtual machines is the one their own check gives. On the way
    /// it compiles the fault injection patterns, when there are any, and
    /// keeps them; nothing else of the configuration changes.
    pub fn check(&mut self, facts: &FuzzerFacts) -> (r: Result<(), FuzzerConfigError>)
        requires
            facts.qemu_paths.serial_path_exists@.len() == old(self).qemu_config.serial_ports@.len(),
        ensures
            match fuzzer_config_problem(*old(self), *facts) {
                None => r is Ok,
                Some(p) => r matches Err(e) && error_for(*old(self), *facts, p, e),
            },
            *final(self) == (FuzzerConfig { fault_injection_regex: final(self).fault_injection_regex, ..*old(self) }),
            compiles_fault_patterns(*old(self), *facts) ==> final(self).fault_injection_regex is Some,
            !compiles_fault_patterns(*old(self), *facts) ==> final(self).fault_injection_regex
                == old(self).fault_injection_regex,
    {
        if !facts.target_supported {
            return Err(FuzzerConfigError::UnsupportedTarget(self.os.clone()));
        }
        match &self.relations {
            Some(p) => if !facts.relations_is_file {
                return Err(FuzzerConfigError::BadRelations(p.clone()));
            },
            None => {},
        }
        match &self.input {
            Some(p) => if !facts.input_is_dir {
                return Err(FuzzerConfigError::BadInput(p.clone()));
            },
            None => {},
        }
        match &self.crash_whitelist {
            Some(p) => if !facts.crash_whitelist_is_file {
                return Err(FuzzerConfigError::BadCrashWhitelist(p.clone()));
            },
            None => {},
        }
        if !facts.syz_dir_is_dir {
            return Err(FuzzerConfigError::BadSyzDir(self.syz_dir.clone()));
        }
        if !facts.bin_dir_is_dir {
            return Err(FuzzerConfigError::NoBinDir);
        }
        if !facts.target_bin_dir_is_dir {
            return Err(FuzzerConfigError::NoTargetBinDir);
        }
        if !facts.executor_exists {
            return Err(FuzzerConfigError::NoExecutor);
        }
        if facts.output_exists && !facts.output_is_dir {
            return Err(FuzzerConfigError::OutputNotDir(self.output.clone()));
        }
        match &self.disabled_calls {
            Some(p) => if !facts.disabled_calls_is_file {
                return Err(FuzzerConfigError::BadDisabledCalls(p.clone()));
            },
            None => {},
        }
        let whitelist = match &self.fault_injection_whitelist_path {
            Some(p) => Some(p.clone()),
            None => None,
        };
        match whitelist {
            Some(p) => {
                if self.disable_fault_injection {
                    return Err(FuzzerConfigError::FaultInjectionDisabled(p));
                }
                if !facts.fault_whitelist_is_file {
                    return Err(FuzzerConfigError::BadFaultWhitelist(p));
                }
                let patterns = fault_patterns(&facts.fault_whitelist_lines);
                if patterns.len() > 0 {
                    match regex_set_new(&patterns) {
                        Ok(set) => {
                            self.fault_injection_regex = Some(set);
                        },
                        Err(_) => {
                            return Err(FuzzerConfigError::BadFaultPatterns(p));
                        },
                    }
                }
            },
            None => {},
        }
        match self.qemu_config.check(&facts.qemu_paths) {
            Ok(()) => {},
            Err(e) => {
                return Err(FuzzerConfigError::Qemu(e));
            },
        }
        if !facts.repro_ok {
            return Err(FuzzerConfigError::BadRepro);
        }
        if !facts.report_ok {
            return Err(FuzzerConfigError::BadReport);
        }
        Ok(())
    }
}

} // verus!

//! Bookkeeping of the crashes found: which raw logs and reports to keep,
//! which crashes to reproduce, and the directory each crash is saved in.
//!
//! Writing the files is left to the caller; the functions here decide what
//! to write and under which number.
use crate::hashed::{
    text_counts, text_items, text_map_get, text_map_insert, text_map_len, text_map_new, text_set_contains,
    text_set_insert, text_set_new, text_set_remove,
};
use crate::strings::{str_chars, string_push};
use ahash::{AHashMap, AHashSet, AHasher};
use std::hash::{Hash, Hasher};
use vstd::prelude::*;
use vstd::utf8::encode_utf8;

verus! {

/// Most raw crash logs kept.
pub const MAX_RAW_LOGS: u64 = 1024;

/// Most reports kept of one crash.
pub const MAX_REPORTS: usize = 100;

/// What the crash manager knows: titles never to report, raw logs seen,
/// titles being reproduced, reports kept per title, titles reproduced.
#[verifier::ext_equal]
pub struct CrashView {
    pub white_list: Set<Seq<char>>,
    pub raw_logs: u64,
    pub reproducing: Set<Seq<char>>,
    pub reports: Map<Seq<char>, usize>,
    pub repros: Set<Seq<char>>,
}

/// The counts of raw logs and reports stay within their limits, and there
/// are finitely many titles.
pub open spec fn crash_view_ok(v: CrashView) -> bool {
    &&& v.reports.dom().finite()
    &&& forall|t: Seq<char>| #[trigger] v.reports.contains_key(t) ==> 1 <= v.reports[t] <= MAX_REPORTS
}

/// The number the next raw log is saved under, if any is kept, and the
/// state after it was seen: the first 1024 raw logs are kept.
pub open spec fn after_raw_log(v: CrashView) -> (CrashView, Option<u64>) {
    let next: u64 = if v.raw_logs == u64::MAX {
        0
    } else {
        (v.raw_logs + 1) as u64
    };
    (
        CrashView { raw_logs: next, ..v },
        if v.raw_logs >= MAX_RAW_LOGS {
            None
        } else {
            Some(v.raw_logs)
        },
    )
}

/// The state after a report of crash `t`, the number the report is saved
/// under (none for a white-listed crash or one with 100 reports already),
/// and whether to reproduce the crash (only when it is not white-listed,
/// not reproduced already and not being reproduced).
pub open spec fn after_report(v: CrashView, t: Seq<char>) -> (CrashView, Option<usize>, bool) {
    if v.white_list.contains(t) {
        (v, None, false)
    } else {
        let n: usize = if v.reports.contains_key(t) {
            v.reports[t]
        } else {
            0
        };
        let kept = n < MAX_REPORTS;
        let reports = v.reports.insert(
            t,
            if kept {
                (n + 1) as usize
            } else {
                n
            },
        );
        let done = v.repros.contains(t);
        let reproducing = if done {
            v.reproducing
        } else {
            v.reproducing.insert(t)
        };
        (
            CrashView { reports, reproducing, ..v },
            if kept {
                Some((n + 1) as usize)
            } else {
                None
            },
            !done && !v.reproducing.contains(t),
        )
    }
}

/// The state after the reproduction of crash `t` ended, found or not, and
/// whether to save the reproducer: only the first one found of a crash.
pub open spec fn after_repro(v: CrashView, t: Seq<char>, found: bool) -> (CrashView, bool) {
    let reproducing = v.reproducing.remove(t);
    if found && !v.repros.contains(t) {
        (CrashView { reproducing, repros: v.repros.insert(t), ..v }, true)
    } else {
        (CrashView { reproducing, ..v }, false)
    }
}

/// Number of different crashes: the titles reported, and one for the raw
/// logs if there were any.
pub open spec fn unique_crash_count(v: CrashView) -> int {
    v.reports.dom().len() + if v.raw_logs != 0 {
        1int
    } else {
        0
    }
}

/// A crash that was reproduced is never reproduced again.
pub proof fn lemma_reproduced_once(v: CrashView, t: Seq<char>)
    ensures
        !after_report(after_repro(v, t, true).0, t).2,
        after_repro(v, t, true).0.repros.contains(t),
{
}

/// While a crash is being reproduced, more reports of it do not start
/// another reproduction.
pub proof fn lemma_one_reproduction_at_a_time(v: CrashView, t: Seq<char>)
    ensures
        !after_report(after_report(v, t).0, t).2,
{
}

/// White-listed crashes leave no trace.
pub proof fn lemma_white_listed_ignored(v: CrashView, t: Seq<char>)
    requires
        v.white_list.contains(t),
    ensures
        after_report(v, t) == (v, None::<usize>, false),
{
}

/// Reports keep the counts within their limits.
pub proof fn lemma_report_keeps_limits(v: CrashView, t: Seq<char>)
    requires
        crash_view_ok(v),
    ensures
        crash_view_ok(after_report(v, t).0),
{
}

/// Bookkeeping of the crashes found.
pub struct CrashManager {
    white_list: AHashSet<String>,
    raw_log_count: u64,
    reproducing: AHashSet<String>,
    reports: AHashMap<String, usize>,
    repros: AHashSet<String>,
}

impl View for CrashManager {
    type V = CrashView;

    closed spec fn view(&self) -> CrashView {
        CrashView {
            white_list: text_items(self.white_list),
            raw_logs: self.raw_log_count,
            reproducing: text_items(self.reproducing),
            reports: text_counts(self.reports),
            repros: text_items(self.repros),
        }
    }
}

impl CrashManager {
    /// No crash seen, none white-listed.
    pub fn new() -> (r: Self)
        ensures
            crash_view_ok(r@),
            r@.white_list == Set::<Seq<char>>::empty(),
            r@.raw_logs == 0,
            r@.reproducing == Set::<Seq<char>>::empty(),
            r@.reports.dom() == Set::<Seq<char>>::empty(),
            r@.repros == Set::<Seq<char>>::empty(),
    {
        Self::with_whitelist(text_set_new())
    }

    /// No crash seen; crashes titled as in `white_list` are ignored.
    pub fn with_whitelist(white_list: AHashSet<String>) -> (r: Self)
        ensures
            crash_view_ok(r@),
            r@.white_list == text_items(white_list),
            r@.raw_logs == 0,
            r@.reproducing == Set::<Seq<char>>::empty(),
            r@.reports.dom() == Set::<Seq<char>>::empty(),
            r@.repros == Set::<Seq<char>>::empty(),
    {
        let r = CrashManager {
            white_list,
            raw_log_count: 0,
            reproducing: text_set_new(),
            reports: text_map_new(),
            repros: text_set_new(),
        };
        proof {
            assert(text_counts(r.reports).dom() =~= Set::<Seq<char>>::empty());
        }
        r
    }

    /// Counts a raw crash log; says the number to save it under, unless
    /// 1024 were kept already.
    pub fn save_raw_log(&mut self) -> (r: Option<u64>)
        requires
            crash_view_ok(old(self)@),
        ensures
            crash_view_ok(final(self)@),
            (final(self)@, r) == after_raw_log(old(self)@),
    {
        let count = self.raw_log_count;
        self.raw_log_count = if count == u64::MAX {
            0
        } else {
            count + 1
        };
        proof {
            assert(self@ =~= after_raw_log(old(self)@).0);
        }
        if count >= MAX_RAW_LOGS {
            None
        } else {
            Some(count)
        }
    }

    /// Counts a report of crash `title`. Says the number to save the report
    /// under, if it is kept, and whether to reproduce the crash.
    pub fn save_new_report(&mut self, title: &str) -> (r: (Option<usize>, bool))
        requires
            crash_view_ok(old(self)@),
        ensures
            crash_view_ok(final(self)@),
            (final(self)@, r.0, r.1) == after_report(old(self)@, title@),
    {
        if text_set_contains(&self.white_list, title) {
            return (None, false);
        }
        let n = match text_map_get(&self.reports, title) {
            Some(n) => n,
            None => 0,
        };
        let id = if n < MAX_REPORTS {
            text_map_insert(&mut self.reports, title.to_owned(), n + 1);
            Some(n + 1)
        } else {
            text_map_insert(&mut self.reports, title.to_owned(), n);
            None
        };
        let repro = if text_set_contains(&self.repros, title) {
            false
        } else {
            text_set_insert(&mut self.reproducing, title.to_owned())
        };
        proof {
            assert(self@ =~= after_report(old(self)@, title@).0);
        }
        (id, repro)
    }

    /// Number of different crashes seen: the titles reported, and one for
    /// the raw logs if there were any.
    pub fn unique_crashes(&self) -> (r: u64)
        requires
            crash_view_ok(self@),
            unique_crash_count(self@) <= u64::MAX,
        ensures
            r == unique_crash_count(self@),
    {
        let raw: u64 = if self.raw_log_count != 0 {
            1
        } else {
            0
        };
        text_map_len(&self.reports) as u64 + raw
    }

    /// The reproduction of crash `title` ended, with a reproducer found or
    /// not. Says whether to save it: only the first one found of a crash.
    pub fn repro_done(&mut self, title: &str, found: bool) -> (r: bool)
        requires
            crash_view_ok(old(self)@),
        ensures
            crash_view_ok(final(self)@),
            (final(self)@, r) == after_repro(old(self)@, title@, found),
    {
        text_set_remove(&mut self.reproducing, title);
        let save = if found && !text_set_contains(&self.repros, title) {
            text_set_insert(&mut self.repros, title.to_owned());
            true
        } else {
            false
        };
        proof {
            assert(self@ =~= after_repro(old(self)@, title@, found).0);
        }
        save
    }
}

#[verifier::external_type_specification]
#[verifier::external_body]
pub struct ExAHasher(AHasher);

/// `AHasher::default`: a hasher whose keys are drawn once per process.
#[verifier::external_body]
fn hasher_new() -> AHasher {
    AHasher::default()
}

/// `Hash::hash` of a string into an `AHasher`.
#[verifier::external_body]
fn hash_text(h: &mut AHasher, s: &String) {
    s.hash(h)
}

/// `Hasher::finish`: the hash of what was written, which depends on the
/// process's keys.
#[verifier::external_body]
fn hasher_finish(h: &AHasher) -> u64 {
    h.finish()
}

/// A text of `n` characters takes between `n` and `4 * n` bytes.
proof fn lemma_utf8_len(s: Seq<char>)
    ensures
        s.len() <= encode_utf8(s).len() <= 4 * s.len(),
    decreases s.len(),
{
    if s.len() > 0 {
        lemma_utf8_len(s.drop_first());
    }
}

/// `t` with each `/` turned into `~`.
pub open spec fn slashes_replaced(t: Seq<char>) -> Seq<char> {
    t.map_values(|c: char| if c == '/' { '~' } else { c })
}

/// The upper case hexadecimal digit of `d`.
pub open spec fn hex_digit(d: nat) -> char {
    if d < 10 {
        ((d + 48) as u8) as char
    } else {
        ((d + 55) as u8) as char
    }
}

/// Upper case hexadecimal form of `n`, without leading zeros.
pub open spec fn hex_upper(n: nat) -> Seq<char>
    decreases n,
{
    if n < 16 {
        seq![hex_digit(n)]
    } else {
        hex_upper(n / 16).push(hex_digit(n % 16))
    }
}

fn push_hex(s: &mut String, n: u64)
    ensures
        final(s)@ == old(s)@ + hex_upper(n as nat),
    decreases n,
{
    if n >= 16 {
        push_hex(s, n / 16);
    }
    let d = (n % 16) as u8;
    let c = if d < 10 {
        (d + 48) as char
    } else {
        (d + 55) as char
    };
    string_push(s, c);
    proof {
        if n >= 16 {
            assert(old(s)@ + hex_upper((n / 16) as nat) + seq![hex_digit((n % 16) as nat)] =~= old(s)@ + hex_upper(
                n as nat,
            ));
        } else {
            assert(old(s)@ + seq![hex_digit((n % 16) as nat)] =~= old(s)@ + hex_upper(n as nat));
        }
    }
}

/// Name of the directory that crash `title` is saved in: the title with
/// each `/` turned into `~`, or, when that takes 255 bytes or more, a hash
/// of it in upper case hexadecimal.
pub fn dir_name(title: &str) -> (r: String)
    ensures
        encode_utf8(slashes_replaced(title@)).len() < 255 ==> r@ == slashes_replaced(title@),
        encode_utf8(slashes_replaced(title@)).len() >= 255 ==> exists|h: u64| r@ == hex_upper(h as nat),
{
    let chars = str_chars(title);
    let mut d = String::new();
    let mut i: usize = 0;
    while i < chars.len()
        invariant
            chars@ == title@,
            0 <= i <= chars@.len(),
            d@ == slashes_replaced(title@.take(i as int)),
        decreases chars@.len() - i,
    {
        let c = chars[i];
        if c == '/' {
            string_push(&mut d, '~');
        } else {
            string_push(&mut d, c);
        }
        proof {
            assert(title@.take(i + 1) =~= title@.take(i as int).push(c));
            assert(d@ =~= slashes_replaced(title@.take(i + 1)));
        }
        i = i + 1;
    }
    proof {
        assert(title@.take(i as int) =~= title@);
        lemma_utf8_len(d@);
    }
    let long = if chars.len() >= 255 {
        true
    } else {
        d.as_str().len() >= 255
    };
    if long {
        let mut h = hasher_new();
        hash_text(&mut h, &d);
        let hash = hasher_finish(&h);
        let mut r = String::new();
        push_hex(&mut r, hash);
        proof {
            assert(r@ =~= hex_upper(hash as nat));
        }
        r
    } else {
        d
    }
}

} // verus!

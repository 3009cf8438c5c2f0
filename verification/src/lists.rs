//! The fuzzer's line-oriented input files: lists of crash titles to ignore,
//! and extra relations between syscalls.
//!
//! Reading the files is left to the caller; these functions take their text.
use crate::hashed::{text_items, text_set_insert, text_set_new};
use crate::strings::{split_on, split_text, strs_view, trim_text, trimmed};
use crate::syscall::{Syscall, SyscallId};
use crate::target::Target;
use ahash::AHashSet;
use vstd::prelude::*;

verus! {

/// The lines of `s`. Line ends are `\n`; a `\r` before one is white space
/// and goes with the trimming that every use of a line applies.
pub open spec fn lines_of(s: Seq<char>) -> Seq<Seq<char>> {
    split_on(s, '\n')
}

/// The non-empty trimmed lines among `ls`.
pub open spec fn titles_of(ls: Seq<Seq<char>>) -> Set<Seq<char>> {
    Set::new(|t: Seq<char>| t.len() > 0 && exists|k: int| 0 <= k < ls.len() && trimmed(#[trigger] ls[k]) == t)
}

/// The crash titles that a list holds: one per line, surrounding white
/// space left out, empty lines skipped.
pub fn crash_whitelist(content: &str) -> (r: AHashSet<String>)
    ensures
        text_items(r) == titles_of(lines_of(content@)),
{
    let lines = split_text(content, '\n');
    let ghost ls = strs_view(lines@);
    let mut titles = text_set_new();
    let mut i: usize = 0;
    proof {
        assert(titles_of(ls.take(0)) =~= Set::<Seq<char>>::empty());
    }
    while i < lines.len()
        invariant
            ls == strs_view(lines@),
            ls == lines_of(content@),
            i <= lines@.len(),
            text_items(titles) == titles_of(ls.take(i as int)),
        decreases lines@.len() - i,
    {
        let t = trim_text(lines[i].as_str());
        let ghost before = text_items(titles);
        let ghost t_view = t@;
        let nonempty = !t.as_str().is_empty();
        if nonempty {
            text_set_insert(&mut titles, t);
        }
        proof {
            let next = ls.take(i + 1);
            assert(next[i as int] == ls[i as int]);
            assert forall|x: Seq<char>| text_items(titles).contains(x) <==> titles_of(next).contains(x) by {
                if titles_of(next).contains(x) {
                    let k = choose|k: int| 0 <= k < next.len() && trimmed(#[trigger] next[k]) == x;
                    if k < i {
                        assert(ls.take(i as int)[k] == next[k]);
                        assert(titles_of(ls.take(i as int)).contains(x));
                    }
                }
                if before.contains(x) {
                    let k = choose|k: int| 0 <= k < i && trimmed(#[trigger] ls.take(i as int)[k]) == x;
                    assert(next[k] == ls.take(i as int)[k]);
                }
                if nonempty && x == t_view {
                    assert(trimmed(next[i as int]) == x);
                }
            }
            assert(text_items(titles) =~= titles_of(next));
        }
        i = i + 1;
    }
    proof {
        assert(ls.take(i as int) =~= ls);
    }
    titles
}

/// Position of the last syscall of `ss` named `name`.
pub open spec fn last_named(ss: Seq<Syscall>, name: Seq<char>) -> Option<int>
    decreases ss.len(),
{
    if ss.len() == 0 {
        None
    } else if ss.last().name@ == name {
        Some(ss.len() - 1)
    } else {
        last_named(ss.drop_last(), name)
    }
}

proof fn lemma_last_named(ss: Seq<Syscall>, name: Seq<char>, i: int)
    requires
        0 <= i < ss.len(),
        ss[i].name@ == name,
        forall|j: int| i < j < ss.len() ==> ss[j].name@ != name,
    ensures
        last_named(ss, name) == Some(i),
    decreases ss.len(),
{
    if i < ss.len() - 1 {
        lemma_last_named(ss.drop_last(), name, i);
    }
}

proof fn lemma_none_named(ss: Seq<Syscall>, name: Seq<char>)
    requires
        forall|j: int| 0 <= j < ss.len() ==> ss[j].name@ != name,
    ensures
        last_named(ss, name) is None,
    decreases ss.len(),
{
    if ss.len() > 0 {
        lemma_none_named(ss.drop_last(), name);
    }
}

/// The id of the syscall named `name`: the last of that name.
pub open spec fn id_named(ss: Seq<Syscall>, name: Seq<char>) -> Option<SyscallId> {
    match last_named(ss, name) {
        Some(i) => Some(ss[i].id),
        None => None,
    }
}

/// The relation a line states: two syscall names separated by a comma,
/// after trimming the line (the names themselves are not trimmed), both of
/// syscalls that `ss` has.
pub open spec fn relation_of_line(ss: Seq<Syscall>, line: Seq<char>) -> Option<(SyscallId, SyscallId)> {
    let t = trimmed(line);
    let items = split_on(t, ',');
    if t.len() == 0 || items.len() != 2 {
        None
    } else {
        match (id_named(ss, items[0]), id_named(ss, items[1])) {
            (Some(a), Some(b)) => Some((a, b)),
            _ => None,
        }
    }
}

/// The relations that the lines `ls` state, in order.
pub open spec fn relations_of(ss: Seq<Syscall>, ls: Seq<Seq<char>>) -> Seq<(SyscallId, SyscallId)>
    decreases ls.len(),
{
    if ls.len() == 0 {
        Seq::empty()
    } else {
        let rest = relations_of(ss, ls.drop_last());
        match relation_of_line(ss, ls.last()) {
            Some(p) => rest.push(p),
            None => rest,
        }
    }
}

fn id_of_name(target: &Target, name: &str) -> (r: Option<SyscallId>)
    ensures
        r == id_named(target.all_syscalls@, name@),
{
    match target.syscall_of_name(name) {
        Some(s) => {
            proof {
                let i = choose|i: int|
                    0 <= i < target.all_syscalls@.len() && target.all_syscalls@[i] == *s && s.name@ == name@
                        && forall|j: int| i < j < target.all_syscalls@.len() ==> target.all_syscalls@[j].name@ != name@;
                lemma_last_named(target.all_syscalls@, name@, i);
            }
            Some(s.id)
        },
        None => {
            proof {
                lemma_none_named(target.all_syscalls@, name@);
            }
            None
        },
    }
}

/// The pairs of syscalls that a relations list states, in order: each line
/// holds two syscall names separated by a comma; lines that do not, or that
/// name a syscall the target lacks, are skipped.
pub fn extra_relations(target: &Target, content: &str) -> (r: Vec<(SyscallId, SyscallId)>)
    ensures
        r@ == relations_of(target.all_syscalls@, lines_of(content@)),
{
    let lines = split_text(content, '\n');
    let ghost ls = strs_view(lines@);
    let ghost ss = target.all_syscalls@;
    let mut out: Vec<(SyscallId, SyscallId)> = Vec::new();
    let mut i: usize = 0;
    proof {
        assert(ls.take(0) =~= Seq::<Seq<char>>::empty());
    }
    while i < lines.len()
        invariant
            ls == strs_view(lines@),
            ls == lines_of(content@),
            ss == target.all_syscalls@,
            i <= lines@.len(),
            out@ == relations_of(ss, ls.take(i as int)),
        decreases lines@.len() - i,
    {
        let ghost next = ls.take(i + 1);
        proof {
            assert(next.drop_last() =~= ls.take(i as int));
            assert(next.last() == ls[i as int]);
        }
        let t = trim_text(lines[i].as_str());
        if !t.as_str().is_empty() {
            let items = split_text(t.as_str(), ',');
            if items.len() == 2 {
                let a = id_of_name(target, items[0].as_str());
                let b = id_of_name(target, items[1].as_str());
                if let (Some(a), Some(b)) = (a, b) {
                    out.push((a, b));
                }
            }
        }
        i = i + 1;
    }
    proof {
        assert(ls.take(i as int) =~= ls);
    }
    out
}

} // verus!

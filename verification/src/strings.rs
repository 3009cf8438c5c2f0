//! Small string helpers over `std` that vstd does not specify.
use vstd::prelude::*;
use vstd::std_specs::iter::IteratorSpec;

verus! {

/// `String::push`: appends one character.
#[verifier::external_body]
pub fn string_push(s: &mut String, c: char)
    ensures
        final(s)@ == old(s)@.push(c),
{
    s.push(c)
}

/// The characters of `s` before the first `'['`, or all of them.
pub open spec fn prefix_before_bracket(s: Seq<char>) -> Seq<char>
    decreases s.len(),
{
    if s.len() == 0 {
        s
    } else if s[0] == '[' {
        Seq::empty()
    } else {
        seq![s[0]] + prefix_before_bracket(s.drop_first())
    }
}

/// Copy of `s` up to (excluding) the first `'['`.
pub fn str_prefix_before_bracket(s: &str) -> (r: String)
    ensures
        r@ == prefix_before_bracket(s@),
{
    let mut out = String::new();
    let mut it = s.chars();
    let ghost all = s@;
    let ghost mut done: int = 0;
    proof {
        assert(it.remaining() == all);
        assert(all.skip(0) =~= all);
        assert(all.take(0) + all =~= all);
    }
    loop
        invariant_except_break
            0 <= done <= all.len(),
            it.remaining() == all.skip(done),
            it.obeys_prophetic_iter_laws(),
            out@ == all.take(done),
            prefix_before_bracket(all) == all.take(done) + prefix_before_bracket(all.skip(done)),
        ensures
            out@ == prefix_before_bracket(all),
        decreases all.len() - done,
    {
        let ghost before = it;
        match it.next() {
            None => {
                proof {
                    assert(all.skip(done).len() == 0);
                    assert(prefix_before_bracket(all.skip(done)) == all.skip(done));
                    assert(all.take(done) + all.skip(done) =~= all.take(done));
                }
                break;
            },
            Some(c) => {
                proof {
                    assert(before.remaining().len() > 0);
                    assert(c == all[done]);
                }
                if c == '[' {
                    proof {
                        assert(all.skip(done)[0] == '[');
                        assert(prefix_before_bracket(all.skip(done)) == Seq::<char>::empty());
                        assert(all.take(done) + Seq::<char>::empty() =~= all.take(done));
                    }
                    break;
                }
                string_push(&mut out, c);
                proof {
                    let rest = all.skip(done);
                    assert(rest.drop_first() =~= all.skip(done + 1));
                    assert(prefix_before_bracket(rest) == seq![c] + prefix_before_bracket(rest.drop_first()));
                    assert(all.take(done + 1) =~= all.take(done) + seq![c]);
                    assert(all.take(done) + (seq![c] + prefix_before_bracket(all.skip(done + 1)))
                        =~= all.take(done + 1) + prefix_before_bracket(all.skip(done + 1)));
                    done = done + 1;
                }
            },
        }
    }
    out
}

/// The first character of `s`, if any.
pub fn first_char(s: &str) -> (r: Option<char>)
    ensures
        s@.len() > 0 ==> r == Some(s@[0]),
        s@.len() == 0 ==> r is None,
{
    let mut it = s.chars();
    proof {
        assert(it.remaining() == s@);
    }
    it.next()
}

/// The characters of `s`.
pub fn str_chars(s: &str) -> (r: Vec<char>)
    ensures
        r@ == s@,
{
    let mut out: Vec<char> = Vec::new();
    let mut it = s.chars();
    let ghost all = s@;
    proof {
        assert(it.remaining() == all);
    }
    loop
        invariant_except_break
            out@.len() <= all.len(),
            it.remaining() == all.skip(out@.len() as int),
            it.obeys_prophetic_iter_laws(),
            out@ == all.take(out@.len() as int),
        ensures
            out@ == all,
        decreases all.len() - out@.len(),
    {
        match it.next() {
            None => {
                proof {
                    assert(all.skip(out@.len() as int).len() == 0);
                    assert(out@ =~= all);
                }
                break;
            },
            Some(c) => {
                proof {
                    assert(c == all[out@.len() as int]);
                    assert(all.take(out@.len() as int + 1) =~= all.take(out@.len() as int).push(c));
                    assert(all.skip(out@.len() as int).drop_first() =~= all.skip(out@.len() as int + 1));
                }
                out.push(c);
            },
        }
    }
    out
}

/// The character of decimal digit `d`.
pub open spec fn digit_char(d: nat) -> char {
    if d == 0 {
        '0'
    } else if d == 1 {
        '1'
    } else if d == 2 {
        '2'
    } else if d == 3 {
        '3'
    } else if d == 4 {
        '4'
    } else if d == 5 {
        '5'
    } else if d == 6 {
        '6'
    } else if d == 7 {
        '7'
    } else if d == 8 {
        '8'
    } else {
        '9'
    }
}

/// Decimal form of `n`, without leading zeros.
pub open spec fn dec_chars(n: nat) -> Seq<char>
    decreases n,
{
    if n < 10 {
        seq![digit_char(n)]
    } else {
        dec_chars(n / 10).push(digit_char(n % 10))
    }
}

fn digit_of(d: u64) -> (c: char)
    requires
        d < 10,
    ensures
        c == digit_char(d as nat),
{
    if d == 0 {
        '0'
    } else if d == 1 {
        '1'
    } else if d == 2 {
        '2'
    } else if d == 3 {
        '3'
    } else if d == 4 {
        '4'
    } else if d == 5 {
        '5'
    } else if d == 6 {
        '6'
    } else if d == 7 {
        '7'
    } else if d == 8 {
        '8'
    } else {
        '9'
    }
}

/// Appends the decimal form of `n`.
pub fn push_dec(s: &mut String, n: u64)
    ensures
        final(s)@ == old(s)@ + dec_chars(n as nat),
    decreases n,
{
    if n >= 10 {
        push_dec(s, n / 10);
    }
    string_push(s, digit_of(n % 10));
    proof {
        if n >= 10 {
            assert(old(s)@ + dec_chars((n / 10) as nat) + seq![digit_char((n % 10) as nat)] =~= old(s)@ + dec_chars(
                n as nat,
            ));
        } else {
            assert(old(s)@ + seq![digit_char((n % 10) as nat)] =~= old(s)@ + dec_chars(n as nat));
        }
    }
}

/// `parts` with `sep` between each two.
pub open spec fn joined(parts: Seq<Seq<char>>, sep: Seq<char>) -> Seq<char>
    decreases parts.len(),
{
    if parts.len() == 0 {
        Seq::empty()
    } else if parts.len() == 1 {
        parts[0]
    } else {
        joined(parts.drop_last(), sep) + sep + parts.last()
    }
}

/// The text of each string.
pub open spec fn strs_view(s: Seq<String>) -> Seq<Seq<char>> {
    s.map_values(|k: String| k@)
}

pub proof fn lemma_strs_push(a: Seq<String>, x: String)
    ensures
        strs_view(a.push(x)) == strs_view(a).push(x@),
{
    assert(strs_view(a.push(x)) =~= strs_view(a).push(x@));
}

pub proof fn lemma_strs_add(a: Seq<String>, b: Seq<String>)
    ensures
        strs_view(a + b) == strs_view(a) + strs_view(b),
{
    assert(strs_view(a + b) =~= strs_view(a) + strs_view(b));
}

/// The pieces of `s` between the characters `sep`, as `str::split` gives
/// them: a text without `sep`, the empty one too, is one piece.
pub open spec fn split_on(s: Seq<char>, sep: char) -> Seq<Seq<char>> {
    pieces_from(sep, Seq::empty(), s)
}

/// The pieces of `cur + rest` when `cur` holds no `sep`.
pub open spec fn pieces_from(sep: char, cur: Seq<char>, rest: Seq<char>) -> Seq<Seq<char>>
    decreases rest.len(),
{
    if rest.len() == 0 {
        seq![cur]
    } else if rest[0] == sep {
        seq![cur] + pieces_from(sep, Seq::empty(), rest.drop_first())
    } else {
        pieces_from(sep, cur.push(rest[0]), rest.drop_first())
    }
}

/// `s` split at each `sep`.
pub fn split_text(s: &str, sep: char) -> (r: Vec<String>)
    ensures
        strs_view(r@) == split_on(s@, sep),
{
    let chars = str_chars(s);
    let ghost all = s@;
    let mut out: Vec<String> = Vec::new();
    let mut cur = String::new();
    let mut i: usize = 0;
    proof {
        assert(all.skip(0) =~= all);
        assert(strs_view(out@) =~= Seq::<Seq<char>>::empty());
        assert(cur@ =~= Seq::<char>::empty());
        assert(strs_view(out@) + pieces_from(sep, cur@, all) =~= pieces_from(sep, cur@, all));
    }
    while i < chars.len()
        invariant
            chars@ == all,
            0 <= i <= chars@.len(),
            strs_view(out@) + pieces_from(sep, cur@, all.skip(i as int)) == split_on(all, sep),
        decreases chars@.len() - i,
    {
        let c = chars[i];
        let ghost rest = all.skip(i as int);
        proof {
            assert(rest[0] == c);
            assert(rest.drop_first() =~= all.skip(i + 1));
        }
        if c == sep {
            let piece = cur;
            cur = String::new();
            proof {
                lemma_strs_push(out@, piece);
                assert(cur@ =~= Seq::<char>::empty());
                assert(strs_view(out@) + pieces_from(sep, piece@, rest) =~= strs_view(out@).push(piece@)
                    + pieces_from(sep, Seq::empty(), all.skip(i + 1)));
            }
            out.push(piece);
        } else {
            string_push(&mut cur, c);
        }
        i = i + 1;
    }
    proof {
        assert(all.skip(i as int).len() == 0);
        lemma_strs_push(out@, cur);
    }
    out.push(cur);
    out
}

/// Unicode white space, as `char::is_whitespace` has it.
pub open spec fn is_ws(c: char) -> bool {
    ||| '\u{9}' <= c <= '\u{d}'
    ||| c == ' '
    ||| c == '\u{85}'
    ||| c == '\u{a0}'
    ||| c == '\u{1680}'
    ||| '\u{2000}' <= c <= '\u{200a}'
    ||| c == '\u{2028}'
    ||| c == '\u{2029}'
    ||| c == '\u{202f}'
    ||| c == '\u{205f}'
    ||| c == '\u{3000}'
}

/// Whether `c` is white space.
pub fn is_ws_char(c: char) -> (r: bool)
    ensures
        r == is_ws(c),
{
    ('\u{9}' <= c && c <= '\u{d}') || c == ' ' || c == '\u{85}' || c == '\u{a0}' || c == '\u{1680}' || ('\u{2000}'
        <= c && c <= '\u{200a}') || c == '\u{2028}' || c == '\u{2029}' || c == '\u{202f}' || c == '\u{205f}' || c
        == '\u{3000}'
}

/// `s` without its leading white space.
pub open spec fn trim_start(s: Seq<char>) -> Seq<char>
    decreases s.len(),
{
    if s.len() > 0 && is_ws(s[0]) {
        trim_start(s.drop_first())
    } else {
        s
    }
}

/// `s` without its trailing white space.
pub open spec fn trim_end(s: Seq<char>) -> Seq<char>
    decreases s.len(),
{
    if s.len() > 0 && is_ws(s.last()) {
        trim_end(s.drop_last())
    } else {
        s
    }
}

/// `s` without leading and trailing white space, as `str::trim` gives it.
pub open spec fn trimmed(s: Seq<char>) -> Seq<char> {
    trim_end(trim_start(s))
}

/// `s` without leading and trailing white space.
pub fn trim_text(s: &str) -> (r: String)
    ensures
        r@ == trimmed(s@),
{
    let chars = str_chars(s);
    let ghost all = s@;
    let mut i: usize = 0;
    proof {
        assert(all.skip(0) =~= all);
    }
    while i < chars.len() && is_ws_char(chars[i])
        invariant
            chars@ == all,
            i <= chars@.len(),
            trim_start(all) == trim_start(all.skip(i as int)),
        decreases chars@.len() - i,
    {
        proof {
            assert(all.skip(i as int).drop_first() =~= all.skip(i + 1));
        }
        i = i + 1;
    }
    let ghost start = all.skip(i as int);
    proof {
        assert(trim_start(start) == start);
        assert(start =~= all.subrange(i as int, all.len() as int));
    }
    let mut j: usize = chars.len();
    while j > i && is_ws_char(chars[j - 1])
        invariant
            chars@ == all,
            i <= j <= chars@.len(),
            trim_end(start) == trim_end(all.subrange(i as int, j as int)),
        decreases j - i,
    {
        proof {
            assert(all.subrange(i as int, j as int).drop_last() =~= all.subrange(i as int, j - 1));
        }
        j = j - 1;
    }
    let mut r = String::new();
    let mut k: usize = i;
    while k < j
        invariant
            chars@ == all,
            i <= k <= j <= chars@.len(),
            r@ == all.subrange(i as int, k as int),
        decreases j - k,
    {
        string_push(&mut r, chars[k]);
        proof {
            assert(all.subrange(i as int, k + 1) =~= all.subrange(i as int, k as int).push(all[k as int]));
        }
        k = k + 1;
    }
    proof {
        assert(trim_end(all.subrange(i as int, j as int)) == all.subrange(i as int, j as int));
    }
    r
}

} // verus!

//! Lexing identifiers and integer literals of the healer spec language.
use crate::strings::str_chars;
use vstd::prelude::*;

verus! {

/// Why an identifier could not be read.
#[derive(Debug, Clone, Copy, PartialEq, Eq, Structural)]
pub enum IdentError {
    /// The input is empty.
    Eof,
    /// The first character cannot start an identifier.
    BadLeading(char),
    /// A lone `_`, which the spec grammar does not take as an identifier.
    LoneUnderscore,
}

/// Letters, as `char::is_ascii_alphabetic` has them.
pub open spec fn is_alpha(c: char) -> bool {
    ('a' <= c <= 'z') || ('A' <= c <= 'Z')
}

/// Decimal digits.
pub open spec fn is_dec(c: char) -> bool {
    '0' <= c <= '9'
}

/// Characters an identifier is made of.
pub open spec fn is_ident_char(c: char) -> bool {
    is_alpha(c) || is_dec(c) || c == '_'
}

/// Length of the longest prefix of `s` whose characters all satisfy `p`.
pub open spec fn span_len(s: Seq<char>, p: spec_fn(char) -> bool) -> nat
    decreases s.len(),
{
    if s.len() == 0 || !p(s[0]) {
        0
    } else {
        1 + span_len(s.drop_first(), p)
    }
}

/// An identifier: a letter or `_`, then letters, digits and `_`. Gives the
/// identifier and how many characters it takes.
pub open spec fn ident_of(s: Seq<char>) -> Result<(Seq<char>, nat), IdentError> {
    if s.len() == 0 {
        Err(IdentError::Eof)
    } else if !is_alpha(s[0]) && s[0] != '_' {
        Err(IdentError::BadLeading(s[0]))
    } else {
        let n = span_len(s, |c: char| is_ident_char(c));
        Ok((s.take(n as int), n))
    }
}

proof fn lemma_span_len(s: Seq<char>, p: spec_fn(char) -> bool, k: int)
    requires
        0 <= k <= s.len(),
        forall|j: int| 0 <= j < k ==> p(#[trigger] s[j]),
        k == s.len() || !p(s[k]),
    ensures
        span_len(s, p) == k,
    decreases k,
{
    if k > 0 {
        let d = s.drop_first();
        assert forall|j: int| 0 <= j < k - 1 implies p(#[trigger] d[j]) by {
            assert(d[j] == s[j + 1]);
        }
        if k < s.len() {
            assert(d[k - 1] == s[k]);
        }
        lemma_span_len(d, p, k - 1);
    }
}

fn is_ident_ch(c: char) -> (r: bool)
    ensures
        r == is_ident_char(c),
{
    ('a' <= c && c <= 'z') || ('A' <= c && c <= 'Z') || ('0' <= c && c <= '9') || c == '_'
}

/// Reads an identifier at the start of `input` (see `ident_of`).
pub fn parse_ident(input: &str) -> (r: Result<(String, usize), IdentError>)
    ensures
        match ident_of(input@) {
            Ok((id, n)) => r matches Ok((rid, rn)) && rid@ == id && rn == n,
            Err(e) => r == Err::<(String, usize), IdentError>(e),
        },
{
    let s = str_chars(input);
    if s.len() == 0 {
        return Err(IdentError::Eof);
    }
    let c = s[0];
    if !(('a' <= c && c <= 'z') || ('A' <= c && c <= 'Z')) && c != '_' {
        return Err(IdentError::BadLeading(c));
    }
    let mut id = String::new();
    let mut i: usize = 0;
    while i < s.len() && is_ident_ch(s[i])
        invariant
            i <= s@.len(),
            s@ == input@,
            id@ == s@.take(i as int),
            forall|j: int| 0 <= j < i ==> is_ident_char(#[trigger] s@[j]),
        decreases s.len() - i,
    {
        crate::strings::string_push(&mut id, s[i]);
        proof {
            assert(s@.take(i + 1) =~= s@.take(i as int).push(s@[i as int]));
        }
        i = i + 1;
    }
    proof {
        lemma_span_len(s@, |c: char| is_ident_char(c), i as int);
    }
    Ok((id, i))
}

/// Why an integer literal could not be read.
#[derive(Debug, Clone, Copy, PartialEq, Eq, Structural)]
pub enum IntLitError {
    /// The input ends where a character is needed.
    Eof,
    /// No digit where one is needed.
    NoDigits,
    /// The number does not fit the integer type.
    OutOfRange,
}

/// Value of digit `c` in base `radix`, if it is one.
pub open spec fn digit_val(c: char, radix: nat) -> Option<nat> {
    let v: int = if is_dec(c) {
        c as int - '0' as int
    } else if 'a' <= c <= 'z' {
        c as int - 'a' as int + 10
    } else if 'A' <= c <= 'Z' {
        c as int - 'A' as int + 10
    } else {
        99
    };
    if v < radix {
        Some(v as nat)
    } else {
        None
    }
}

/// Characters that are digits in base `radix`.
pub open spec fn is_digit_of(radix: nat) -> spec_fn(char) -> bool {
    |ch: char| digit_val(ch, radix) is Some
}

/// The number written by the digits `s` in base `radix`.
pub open spec fn digits_val(s: Seq<char>, radix: nat) -> nat
    decreases s.len(),
{
    if s.len() == 0 {
        0
    } else {
        digits_val(s.drop_last(), radix) * radix + match digit_val(s.last(), radix) {
            Some(d) => d,
            None => 0,
        }
    }
}

/// What an integer literal says before it is fitted to a type: whether it
/// is negative, the digits' value, and how many characters it takes; or
/// why it is no literal. A literal is `[-][0x|0b|0o]digits` (either case);
/// a leading `0` not followed by a base letter or a digit is the literal 0.
pub open spec fn int_lit(s: Seq<char>) -> Result<(bool, nat, nat), IntLitError> {
    let neg = s.len() > 0 && s[0] == '-';
    let p: int = if neg {
        1
    } else {
        0
    };
    if s.len() <= p {
        Err(IntLitError::Eof)
    } else if s[p] == '0' {
        if s.len() == p + 1 {
            Ok((neg, 0, (p + 1) as nat))
        } else {
            let c = s[p + 1];
            let radix: nat = if c == 'x' || c == 'X' {
                16
            } else if c == 'b' || c == 'B' {
                2
            } else if c == 'o' || c == 'O' {
                8
            } else {
                10
            };
            if radix != 10 {
                let rest = s.skip(p + 2);
                let n = span_len(rest, is_digit_of(radix));
                if n == 0 {
                    Err(IntLitError::NoDigits)
                } else {
                    Ok((neg, digits_val(rest.take(n as int), radix), (p + 2 + n) as nat))
                }
            } else if is_dec(c) {
                let rest = s.skip(p + 1);
                let n = span_len(rest, is_digit_of(10));
                Ok((neg, digits_val(rest.take(n as int), 10), (p + 1 + n) as nat))
            } else {
                Ok((false, 0, (p + 1) as nat))
            }
        }
    } else {
        let rest = s.skip(p);
        let n = span_len(rest, is_digit_of(10));
        if n == 0 {
            Err(IntLitError::NoDigits)
        } else {
            Ok((neg, digits_val(rest.take(n as int), 10), (p + n) as nat))
        }
    }
}

/// The integer types a literal can be read into.
pub trait Integer: Sized + Copy {
    spec fn spec_int(self) -> int;

    spec fn spec_min() -> int;

    spec fn spec_max() -> int;

    /// Zero is a value of the type.
    proof fn lemma_zero_fits()
        ensures
            Self::spec_min() <= 0 <= Self::spec_max(),
    ;

    /// The largest value, which fits in 64 bits for every such type.
    fn max_value() -> (r: u64)
        ensures
            r == Self::spec_max(),
    ;

    /// `v` as a value of the type, if it fits.
    fn from_i128(v: i128) -> (r: Option<Self>)
        ensures
            r is Some <==> Self::spec_min() <= v <= Self::spec_max(),
            r matches Some(x) ==> x.spec_int() == v,
    ;
}

impl Integer for u8 {
    open spec fn spec_int(self) -> int {
        self as int
    }

    open spec fn spec_min() -> int {
        0
    }

    open spec fn spec_max() -> int {
        u8::MAX as int
    }

    proof fn lemma_zero_fits() {
    }

    fn max_value() -> (r: u64) {
        u8::MAX as u64
    }

    fn from_i128(v: i128) -> (r: Option<Self>) {
        if 0 <= v && v <= u8::MAX as i128 {
            Some(v as u8)
        } else {
            None
        }
    }
}

impl Integer for u16 {
    open spec fn spec_int(self) -> int {
        self as int
    }

    open spec fn spec_min() -> int {
        0
    }

    open spec fn spec_max() -> int {
        u16::MAX as int
    }

    proof fn lemma_zero_fits() {
    }

    fn max_value() -> (r: u64) {
        u16::MAX as u64
    }

    fn from_i128(v: i128) -> (r: Option<Self>) {
        if 0 <= v && v <= u16::MAX as i128 {
            Some(v as u16)
        } else {
            None
        }
    }
}

impl Integer for u32 {
    open spec fn spec_int(self) -> int {
        self as int
    }

    open spec fn spec_min() -> int {
        0
    }

    open spec fn spec_max() -> int {
        u32::MAX as int
    }

    proof fn lemma_zero_fits() {
    }

    fn max_value() -> (r: u64) {
        u32::MAX as u64
    }

    fn from_i128(v: i128) -> (r: Option<Self>) {
        if 0 <= v && v <= u32::MAX as i128 {
            Some(v as u32)
        } else {
            None
        }
    }
}

impl Integer for u64 {
    open spec fn spec_int(self) -> int {
        self as int
    }

    open spec fn spec_min() -> int {
        0
    }

    open spec fn spec_max() -> int {
        u64::MAX as int
    }

    proof fn lemma_zero_fits() {
    }

    fn max_value() -> (r: u64) {
        u64::MAX
    }

    fn from_i128(v: i128) -> (r: Option<Self>) {
        if 0 <= v && v <= u64::MAX as i128 {
            Some(v as u64)
        } else {
            None
        }
    }
}

impl Integer for i8 {
    open spec fn spec_int(self) -> int {
        self as int
    }

    open spec fn spec_min() -> int {
        i8::MIN as int
    }

    open spec fn spec_max() -> int {
        i8::MAX as int
    }

    proof fn lemma_zero_fits() {
    }

    fn max_value() -> (r: u64) {
        i8::MAX as u64
    }

    fn from_i128(v: i128) -> (r: Option<Self>) {
        if i8::MIN as i128 <= v && v <= i8::MAX as i128 {
            Some(v as i8)
        } else {
            None
        }
    }
}

impl Integer for i16 {
    open spec fn spec_int(self) -> int {
        self as int
    }

    open spec fn spec_min() -> int {
        i16::MIN as int
    }

    open spec fn spec_max() -> int {
        i16::MAX as int
    }

    proof fn lemma_zero_fits() {
    }

    fn max_value() -> (r: u64) {
        i16::MAX as u64
    }

    fn from_i128(v: i128) -> (r: Option<Self>) {
        if i16::MIN as i128 <= v && v <= i16::MAX as i128 {
            Some(v as i16)
        } else {
            None
        }
    }
}

impl Integer for i32 {
    open spec fn spec_int(self) -> int {
        self as int
    }

    open spec fn spec_min() -> int {
        i32::MIN as int
    }

    open spec fn spec_max() -> int {
        i32::MAX as int
    }

    proof fn lemma_zero_fits() {
    }

    fn max_value() -> (r: u64) {
        i32::MAX as u64
    }

    fn from_i128(v: i128) -> (r: Option<Self>) {
        if i32::MIN as i128 <= v && v <= i32::MAX as i128 {
            Some(v as i32)
        } else {
            None
        }
    }
}

impl Integer for i64 {
    open spec fn spec_int(self) -> int {
        self as int
    }

    open spec fn spec_min() -> int {
        i64::MIN as int
    }

    open spec fn spec_max() -> int {
        i64::MAX as int
    }

    proof fn lemma_zero_fits() {
    }

    fn max_value() -> (r: u64) {
        i64::MAX as u64
    }

    fn from_i128(v: i128) -> (r: Option<Self>) {
        if i64::MIN as i128 <= v && v <= i64::MAX as i128 {
            Some(v as i64)
        } else {
            None
        }
    }
}

fn digit_of(c: char, radix: u32) -> (r: Option<u32>)
    requires
        2 <= radix <= 16,
    ensures
        match digit_val(c, radix as nat) {
            Some(d) => r == Some(d as u32),
            None => r is None,
        },
{
    let v: u32 = if '0' <= c && c <= '9' {
        (c as u32) - ('0' as u32)
    } else if 'a' <= c && c <= 'z' {
        (c as u32) - ('a' as u32) + 10
    } else if 'A' <= c && c <= 'Z' {
        (c as u32) - ('A' as u32) + 10
    } else {
        99
    };
    if v < radix {
        Some(v)
    } else {
        None
    }
}

proof fn lemma_digits_step(s: Seq<char>, radix: nat, i: int)
    requires
        0 <= i < s.len(),
    ensures
        digits_val(s.take(i + 1), radix) == digits_val(s.take(i), radix) * radix + match digit_val(s[i], radix) {
            Some(d) => d,
            None => 0,
        },
{
    assert(s.take(i + 1).drop_last() =~= s.take(i));
}

/// Scans the digits in base `radix` from `start`: how many there are, and
/// their value when it is at most `bound`.
fn scan_digits(s: &Vec<char>, start: usize, radix: u32, bound: u64) -> (r: (usize, Option<u64>))
    requires
        start <= s@.len(),
        2 <= radix <= 16,
    ensures
        start + r.0 <= s@.len(),
        r.0 == span_len(s@.skip(start as int), is_digit_of(radix as nat)),
        match r.1 {
            Some(v) => v == digits_val(s@.skip(start as int).take(r.0 as int), radix as nat) && v <= bound,
            None => digits_val(s@.skip(start as int).take(r.0 as int), radix as nat) > bound,
        },
{
    let ghost rest = s@.skip(start as int);
    let ghost rdx = radix as nat;
    let mut i: usize = start;
    let mut acc: u128 = 0;
    let mut over = false;
    while i < s.len()
        invariant_except_break
            forall|j: int| 0 <= j < i - start ==> is_digit_of(rdx)(#[trigger] rest[j]),
        invariant
            start <= i <= s@.len(),
            rest == s@.skip(start as int),
            rdx == radix as nat,
            2 <= radix <= 16,
            !over ==> acc == digits_val(rest.take(i - start), rdx) && acc <= bound,
            over ==> digits_val(rest.take(i - start), rdx) > bound,
        ensures
            start <= i <= s@.len(),
            forall|j: int| 0 <= j < i - start ==> is_digit_of(rdx)(#[trigger] rest[j]),
            i == s@.len() || !is_digit_of(rdx)(rest[i - start]),
        decreases s.len() - i,
    {
        let d = match digit_of(s[i], radix) {
            Some(d) => d,
            None => {
                proof {
                    assert(rest[i - start] == s@[i as int]);
                }
                break;
            },
        };
        proof {
            assert(rest[i - start] == s@[i as int]);
            lemma_digits_step(rest, rdx, i - start);
            assert(rest.take(i - start + 1) == rest.take((i + 1) - start));
        }
        if !over {
            proof {
                assert(acc * radix + d <= 0x1_0000_0000_0000_0000 * 16 + 16) by (nonlinear_arith)
                    requires
                        acc <= 0xffff_ffff_ffff_ffff,
                        radix <= 16,
                        d < 16,
                ;
            }
            acc = acc * (radix as u128) + (d as u128);
            if acc > bound as u128 {
                over = true;
            }
        } else {
            proof {
                let prev = digits_val(rest.take(i - start), rdx);
                assert(prev * rdx + d >= prev) by (nonlinear_arith)
                    requires
                        rdx >= 2,
                ;
            }
        }
        i = i + 1;
    }
    proof {
        lemma_span_len(rest, is_digit_of(rdx), i - start);
    }
    if over {
        (i - start, None)
    } else {
        (i - start, Some(acc as u64))
    }
}

/// Reads an integer literal at the start of `input` into type `T` (see
/// `int_lit`): the value with its sign, and how many characters it takes.
/// A number above the type's maximum, or a negative one below its minimum,
/// is out of range.
pub fn parse_integer<T: Integer>(input: &str) -> (r: Result<(T, usize), IntLitError>)
    ensures
        match int_lit(input@) {
            Err(e) => r == Err::<(T, usize), IntLitError>(e),
            Ok((neg, m, n)) => if m > T::spec_max() || (neg && -m < T::spec_min()) {
                r == Err::<(T, usize), IntLitError>(IntLitError::OutOfRange)
            } else {
                r matches Ok((x, rn)) && x.spec_int() == (if neg {
                    -m
                } else {
                    m as int
                }) && rn == n
            },
        },
{
    proof {
        T::lemma_zero_fits();
    }
    let s = str_chars(input);
    let n = s.len();
    if n == 0 {
        return Err(IntLitError::Eof);
    }
    let neg = s[0] == '-';
    let p: usize = if neg {
        1
    } else {
        0
    };
    if n <= p {
        return Err(IntLitError::Eof);
    }
    let bound = T::max_value();
    let mut radix: u32 = 10;
    let mut start: usize = p;
    let mut zero = false;
    if s[p] == '0' {
        if n == p + 1 {
            zero = true;
        } else {
            let c = s[p + 1];
            if c == 'x' || c == 'X' {
                radix = 16;
                start = p + 2;
            } else if c == 'b' || c == 'B' {
                radix = 2;
                start = p + 2;
            } else if c == 'o' || c == 'O' {
                radix = 8;
                start = p + 2;
            } else if '0' <= c && c <= '9' {
                start = p + 1;
            } else {
                zero = true;
            }
        }
    }
    if zero {
        let z = T::from_i128(0);
        return match z {
            Some(x) => Ok((x, p + 1)),
            None => Err(IntLitError::OutOfRange),
        };
    }
    let (cnt, val) = scan_digits(&s, start, radix, bound);
    if cnt == 0 {
        return Err(IntLitError::NoDigits);
    }
    proof {
        assert(s@.skip(start as int) =~= input@.skip(start as int));
    }
    match val {
        None => Err(IntLitError::OutOfRange),
        Some(m) => {
            let v: i128 = if neg {
                -(m as i128)
            } else {
                m as i128
            };
            match T::from_i128(v) {
                Some(x) => Ok((x, start + cnt)),
                None => Err(IntLitError::OutOfRange),
            }
        },
    }
}

/// `c` with an upper case letter made lower case.
pub open spec fn lower(c: char) -> char {
    if 'A' <= c <= 'Z' {
        ((c as u32) + 32) as char
    } else {
        c
    }
}

proof fn lemma_all_zeros(z: Seq<char>, radix: nat)
    requires
        forall|i: int| 0 <= i < z.len() ==> z[i] == '0',
    ensures
        digits_val(z, radix) == 0,
    decreases z.len(),
{
    if z.len() > 0 {
        let d = z.drop_last();
        assert forall|i: int| 0 <= i < d.len() implies d[i] == '0' by {
            assert(d[i] == z[i]);
        }
        lemma_all_zeros(d, radix);
        assert(z.last() == '0');
        assert(digits_val(d, radix) * radix == 0);
    }
}

/// Leading zeros do not change the number digits write, in any base.
pub proof fn lemma_leading_zeros(z: Seq<char>, s: Seq<char>, radix: nat)
    requires
        forall|i: int| 0 <= i < z.len() ==> z[i] == '0',
    ensures
        digits_val(z + s, radix) == digits_val(s, radix),
    decreases s.len(),
{
    if s.len() == 0 {
        assert(z + s =~= z);
        lemma_all_zeros(z, radix);
    } else {
        assert((z + s).drop_last() =~= z + s.drop_last());
        lemma_leading_zeros(z, s.drop_last(), radix);
    }
}

/// Letters stand for the same digit in either case: digits that differ only
/// in case write the same number.
pub proof fn lemma_digits_case_insensitive(s: Seq<char>, t: Seq<char>, radix: nat)
    requires
        s.len() == t.len(),
        forall|i: int| 0 <= i < s.len() ==> lower(#[trigger] s[i]) == lower(t[i]),
    ensures
        digits_val(s, radix) == digits_val(t, radix),
    decreases s.len(),
{
    if s.len() > 0 {
        let a = s.last();
        let b = t.last();
        assert(lower(s[s.len() - 1]) == lower(t[t.len() - 1]));
        assert(digit_val(a, radix) == digit_val(b, radix)) by {
            assert(lower(a) == lower(b));
        }
        lemma_digits_case_insensitive(s.drop_last(), t.drop_last(), radix);
    }
}

proof fn lemma_span_len_le(s: Seq<char>, p: spec_fn(char) -> bool)
    ensures
        span_len(s, p) <= s.len(),
    decreases s.len(),
{
    if s.len() > 0 && p(s[0]) {
        lemma_span_len_le(s.drop_first(), p);
    }
}

/// An identifier of the spec grammar: as `ident_of`, except that a lone
/// `_` is none.
pub open spec fn spec_ident_of(s: Seq<char>) -> Result<(Seq<char>, nat), IdentError> {
    match ident_of(s) {
        Ok((id, n)) => if id == seq!['_'] {
            Err(IdentError::LoneUnderscore)
        } else {
            Ok((id, n))
        },
        Err(e) => Err(e),
    }
}

/// Reads an identifier of the spec grammar at the start of `input` (see
/// `spec_ident_of`).
pub fn parse_spec_ident(input: &str) -> (r: Result<(String, usize), IdentError>)
    ensures
        match spec_ident_of(input@) {
            Ok((id, n)) => r matches Ok((rid, rn)) && rid@ == id && rn == n,
            Err(e) => r == Err::<(String, usize), IdentError>(e),
        },
{
    proof {
        lemma_span_len_le(input@, |c: char| is_ident_char(c));
    }
    match parse_ident(input) {
        Err(e) => Err(e),
        Ok((id, n)) => {
            if n == 1 {
                let c = str_chars(input);
                if c[0] == '_' {
                    assert(id@ =~= seq!['_']);
                    return Err(IdentError::LoneUnderscore);
                }
                assert(id@[0] != '_');
                assert(id@ != seq!['_']);
            } else {
                assert(id@.len() != 1);
                assert(id@ != seq!['_']);
            }
            Ok((id, n))
        },
    }
}

/// A parse error of the test entry points: what went wrong, the file it is
/// reported for, and the first line of the input (`EOF` when it is empty).
#[derive(Debug)]
pub struct HlParseError<E> {
    pub kind: E,
    pub filename: String,
    pub snippet: String,
}

/// The first line of `s`, or `EOF` when `s` is empty.
pub open spec fn snippet_of(s: Seq<char>) -> Seq<char> {
    if s.len() == 0 {
        "EOF"@
    } else {
        s.take(span_len(s, |c: char| c != '\n') as int)
    }
}

fn snippet(input: &str) -> (r: String)
    ensures
        r@ == snippet_of(input@),
{
    let s = str_chars(input);
    if s.len() == 0 {
        proof {
            reveal_strlit("EOF");
        }
        return String::from_str("EOF");
    }
    let mut out = String::new();
    let mut i: usize = 0;
    while i < s.len() && s[i] != '\n'
        invariant
            i <= s@.len(),
            s@ == input@,
            out@ == s@.take(i as int),
            forall|j: int| 0 <= j < i ==> #[trigger] s@[j] != '\n',
        decreases s.len() - i,
    {
        crate::strings::string_push(&mut out, s[i]);
        proof {
            assert(s@.take(i + 1) =~= s@.take(i as int).push(s@[i as int]));
        }
        i = i + 1;
    }
    proof {
        lemma_span_len(s@, |c: char| c != '\n', i as int);
    }
    out
}

fn test_file() -> (r: String)
    ensures
        r@ == "test.hl"@,
{
    String::from_str("test.hl")
}

/// Reads an identifier from `ident` (see `ident_of`); an error is
/// reported for the file `test.hl` with the input's first line.
pub fn parse_ident_test(ident: &str) -> (r: Result<String, HlParseError<IdentError>>)
    ensures
        match ident_of(ident@) {
            Ok((id, _)) => r matches Ok(x) && x@ == id,
            Err(e) => r matches Err(pe) && pe.kind == e && pe.filename@ == "test.hl"@ && pe.snippet@ == snippet_of(
                ident@,
            ),
        },
{
    match parse_ident(ident) {
        Ok((id, _)) => Ok(id),
        Err(e) => Err(HlParseError { kind: e, filename: test_file(), snippet: snippet(ident) }),
    }
}

/// Reads an integer literal of type `T` from `i` (see `parse_integer`); an
/// error is reported for the file `test.hl` with the input's first line.
pub fn parse_integer_test<T: Integer>(i: &str) -> (r: Result<T, HlParseError<IntLitError>>)
    ensures
        match int_lit(i@) {
            Err(e) => r matches Err(pe) && pe.kind == e && pe.filename@ == "test.hl"@ && pe.snippet@ == snippet_of(i@),
            Ok((neg, m, n)) => if m > T::spec_max() || (neg && -m < T::spec_min()) {
                r matches Err(pe) && pe.kind == IntLitError::OutOfRange && pe.filename@ == "test.hl"@ && pe.snippet@
                    == snippet_of(i@)
            } else {
                r matches Ok(x) && x.spec_int() == (if neg {
                    -m
                } else {
                    m as int
                })
            },
        },
{
    match parse_integer::<T>(i) {
        Ok((x, _)) => Ok(x),
        Err(e) => Err(HlParseError { kind: e, filename: test_file(), snippet: snippet(i) }),
    }
}

} // verus!

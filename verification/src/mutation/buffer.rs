//! Mutation of the bytes of `blob` values: block operations (shuffle,
//! erase, overwrite, insert) and scalar operations (lengths, perturbation,
//! magic values, single bytes, ASCII integers).
//!
//! A range `(start, end)` bounds the length of the buffer; operations that
//! grow the buffer never take it past `end`.
use crate::size::{lookup_ty, ty_with_id};
use crate::target::{has_ty, Target};
use crate::ty::{Dir, Type};
use crate::value::{Value, ValueKindInner};
use crate::rng::{rand_bool, rand_fill, rand_in_range, rand_index, rand_ratio, rand_shuffle, rand_u64};
use rand::rngs::SmallRng;
use vstd::prelude::*;

verus! {

broadcast use vstd::std_specs::vec::group_vec_axioms;

/// Largest length a blob without a range gets.
pub const MAX_BLOB_LEN: u64 = 102400;

/// The bytes that `*_special` operations use.
pub const SPECIAL_BYTES: [u8; 31] = [
    0x21, 0x2a, 0x27, 0x28, 0x29, 0x3b, 0x3a, 0x40, 0x26, 0x3d, 0x2b, 0x24, 0x2c, 0x2f, 0x3f, 0x25,
    0x23, 0x5b, 0x5d, 0x30, 0x31, 0x32, 0x41, 0x7a, 0x2d, 0x60, 0x7e, 0x2e, 0xff, 0x00, 0x00,
];

/// A special byte drawn at random.
fn rand_special_byte(rng: &mut SmallRng) -> (r: u8)
    ensures
        SPECIAL_BYTES@.contains(r),
{
    let i = rand_index(rng, 31);
    let b = SPECIAL_BYTES[i];
    assert(SPECIAL_BYTES@[i as int] == b);
    b
}

/// A random byte.
fn rand_byte(rng: &mut SmallRng) -> (r: u8) {
    (rand_u64(rng) % 256) as u8
}

/// `b` without the `l` bytes at `s`.
pub open spec fn cut(b: Seq<u8>, s: int, l: int) -> Seq<u8> {
    b.subrange(0, s) + b.subrange(s + l, b.len() as int)
}

/// `b` with the `l` bytes at `dst` replaced by the `l` bytes at `src`.
pub open spec fn overwritten(b: Seq<u8>, src: int, dst: int, l: int) -> Seq<u8> {
    b.subrange(0, dst) + b.subrange(src, src + l) + b.subrange(dst + l, b.len() as int)
}

/// `b` with `block` inserted at `s`.
pub open spec fn spliced(b: Seq<u8>, s: int, block: Seq<u8>) -> Seq<u8> {
    b.subrange(0, s) + block + b.subrange(s, b.len() as int)
}

/// `n` and `o` agree outside the `l` bytes at `s`.
pub open spec fn same_outside(o: Seq<u8>, n: Seq<u8>, s: int, l: int) -> bool {
    n.len() == o.len() && n.subrange(0, s) == o.subrange(0, s) && n.subrange(s + l, o.len() as int)
        == o.subrange(s + l, o.len() as int)
}

/// A `w`-byte scalar at one of the first 64 positions now holds the length
/// of `o`, in either byte order.
pub open spec fn length_written(o: Seq<u8>, n: Seq<u8>, w: nat) -> bool {
    exists|pos: int, swap: bool|
        0 <= pos < 64 && pos + w <= o.len() && n == #[trigger] put_bytes(o, pos, stored(le_bytes(o.len(), w), swap))
}

/// A `w`-byte scalar was moved by at most 35 or negated (see `perturbed`).
pub open spec fn scalar_perturbed(o: Seq<u8>, n: Seq<u8>, w: nat) -> bool {
    exists|pos: int, swap: bool, d: int|
        -35 <= d <= 35 && 0 <= pos && pos + w <= o.len() && n == #[trigger] perturbed(o, pos, w, swap, d)
}

/// A `w`-byte scalar now holds one of `magic`, in either byte order.
pub open spec fn magic_written(o: Seq<u8>, n: Seq<u8>, w: nat, magic: Seq<u64>) -> bool {
    exists|pos: int, swap: bool, m: u64|
        magic.contains(m) && 0 <= pos && pos + w <= o.len() && n == #[trigger] put_bytes(
            o,
            pos,
            stored(le_bytes(m as nat, w), swap),
        )
}

/// `x` kept within `[lo, hi]`: raised to `lo`, else lowered to `hi`.
pub open spec fn clamp(x: int, lo: int, hi: int) -> int {
    if x < lo {
        lo
    } else if x > hi {
        hi
    } else {
        x
    }
}

/// Moves the size `old` a little (down by up to `old`, or up by up to 16)
/// and keeps it in `r`.
pub fn mutate_blob_len(rng: &mut SmallRng, old: u64, r: (u64, u64)) -> (new: u64)
    requires
        old <= u64::MAX - 16,
    ensures
        exists|m: int| 0 <= m <= old + 16 && new == clamp(m, r.0 as int, r.1 as int),
{
    let mut new = if rand_bool(rng) {
        let delta = rand_in_range(rng, 0, old);
        old - delta
    } else {
        let delta = rand_in_range(rng, 0, 16);
        old + delta
    };
    let ghost m = new as int;
    if new < r.0 {
        new = r.0;
    } else if new > r.1 {
        new = r.1;
    }
    assert(new == clamp(m, r.0 as int, r.1 as int));
    new
}

/// Brings the length into `r`: a short buffer is extended to `r.0` with
/// random bytes, a long one cut to `r.1`.
pub fn fixup_blob_length(rng: &mut SmallRng, buf: &mut Vec<u8>, r: (u64, u64))
    requires
        r.0 <= usize::MAX,
        r.1 <= usize::MAX,
    ensures
        old(buf)@.len() < r.0 ==> final(buf)@.len() == r.0 && final(buf)@.subrange(0, old(buf)@.len() as int) == old(buf)@,
        r.0 <= old(buf)@.len() && old(buf)@.len() > r.1 ==> final(buf)@ == old(buf)@.subrange(0, r.1 as int),
        r.0 <= old(buf)@.len() <= r.1 ==> final(buf)@ == old(buf)@,
{
    let start = r.0 as usize;
    let end = r.1 as usize;
    if buf.len() < start {
        let ghost b0 = buf@;
        while buf.len() < start
            invariant
                b0.len() <= buf@.len() <= start,
                buf@.subrange(0, b0.len() as int) == b0,
            decreases start - buf.len(),
        {
            let b = rand_byte(rng);
            buf.push(b);
            assert(buf@.subrange(0, b0.len() as int) =~= b0);
        }
    } else if buf.len() > end {
        buf.truncate(end);
    }
}

/// Length of a block to mutate: 2 to 32 bytes, at most `len`.
pub fn rand_op_len(rng: &mut SmallRng, len: usize) -> (r: usize)
    requires
        len >= 2,
    ensures
        2 <= r <= len,
        r <= 32,
{
    let max = if len < 32 {
        len
    } else {
        32
    };
    rand_in_range(rng, 2, max as u64) as usize
}

/// A block `(start, len)` to mutate inside `len` bytes (see `rand_op_len`).
pub fn rand_op_range(rng: &mut SmallRng, len: usize) -> (r: (usize, usize))
    requires
        len >= 2,
    ensures
        2 <= r.1 <= 32,
        r.0 + r.1 <= len,
{
    let op_len = rand_op_len(rng, len);
    let start = rand_in_range(rng, 0, (len - op_len) as u64) as usize;
    (start, op_len)
}

/// Shuffles a block: the bytes outside it are kept, those inside it are
/// permuted. Fails on fewer than 2 bytes.
pub fn shuffle(rng: &mut SmallRng, buf: &mut Vec<u8>) -> (r: bool)
    ensures
        r == (old(buf)@.len() >= 2),
        final(buf)@.len() == old(buf)@.len(),
        final(buf)@.to_multiset() == old(buf)@.to_multiset(),
        !r ==> final(buf)@ == old(buf)@,
{
    if buf.len() < 2 {
        return false;
    }
    let (start, len) = rand_op_range(rng, buf.len());
    let ghost b0 = buf@;
    let mut block: Vec<u8> = Vec::new();
    let mut i: usize = 0;
    while i < len
        invariant
            i <= len,
            start + len <= buf@.len(),
            buf@.len() <= usize::MAX,
            buf@ == b0,
            block@ == b0.subrange(start as int, start + i),
        decreases len - i,
    {
        block.push(buf[start + i]);
        i = i + 1;
    }
    rand_shuffle(rng, block.as_mut_slice());
    let mut i: usize = 0;
    while i < len
        invariant
            i <= len,
            start + len <= b0.len(),
            b0.len() <= usize::MAX,
            block@.len() == len,
            buf@.len() == b0.len(),
            buf@ == b0.subrange(0, start as int) + block@.subrange(0, i as int) + b0.subrange(start + i, b0.len() as int),
        decreases len - i,
    {
        buf.set(start + i, block[i]);
        i = i + 1;
        assert(buf@ =~= b0.subrange(0, start as int) + block@.subrange(0, i as int) + b0.subrange(start + i, b0.len() as int));
    }
    proof {
        let pre = b0.subrange(0, start as int);
        let mid = b0.subrange(start as int, start + len);
        let post = b0.subrange(start + len, b0.len() as int);
        assert(block@.subrange(0, len as int) =~= block@);
        assert(b0 =~= pre + mid + post);
        vstd::seq_lib::lemma_multiset_commutative(pre + mid, post);
        vstd::seq_lib::lemma_multiset_commutative(pre, mid);
        vstd::seq_lib::lemma_multiset_commutative(pre + block@, post);
        vstd::seq_lib::lemma_multiset_commutative(pre, block@);
    }
    true
}

/// Erases a block of 2 to 32 bytes that lies before the last `r.0` bytes.
/// Fails when there are fewer than 2 such bytes.
pub fn erase(rng: &mut SmallRng, buf: &mut Vec<u8>, r: (u64, u64)) -> (ok: bool)
    ensures
        final(buf)@.len() <= old(buf)@.len(),
        ok == (old(buf)@.len() >= r.0 + 2),
        !ok ==> final(buf)@ == old(buf)@,
        ok ==> exists|s: int, l: int|
            2 <= l <= 32 && 0 <= s && s + l <= old(buf)@.len() - r.0 && final(buf)@ == #[trigger] cut(old(buf)@, s, l),
{
    let max_len: usize = if (buf.len() as u64) > r.0 {
        ((buf.len() as u64) - r.0) as usize
    } else {
        0
    };
    if max_len < 2 {
        return false;
    }
    let (s, l) = rand_op_range(rng, max_len);
    let ghost b0 = buf@;
    let mut out: Vec<u8> = Vec::new();
    let mut i: usize = 0;
    while i < buf.len()
        invariant
            i <= buf@.len(),
            buf@ == b0,
            s + l <= b0.len(),
            out@ == (if i <= s {
                b0.subrange(0, i as int)
            } else if i <= s + l {
                b0.subrange(0, s as int)
            } else {
                b0.subrange(0, s as int) + b0.subrange(s + l, i as int)
            }),
        decreases buf.len() - i,
    {
        if i < s || i >= s + l {
            out.push(buf[i]);
        }
        i = i + 1;
        assert(out@ =~= (if i <= s {
            b0.subrange(0, i as int)
        } else if i <= s + l {
            b0.subrange(0, s as int)
        } else {
            b0.subrange(0, s as int) + b0.subrange(s + l, i as int)
        }));
    }
    *buf = out;
    assert(buf@ == cut(b0, s as int, l as int));
    assert(buf@.len() <= b0.len());
    true
}

/// Copies `len` bytes from `src` to `dst` (overlapping blocks are copied as
/// they were before the copy).
fn copy_block(buf: &mut Vec<u8>, src: usize, dst: usize, len: usize)
    requires
        src + len <= old(buf)@.len(),
        dst + len <= old(buf)@.len(),
    ensures
        final(buf)@ == old(buf)@.subrange(0, dst as int) + old(buf)@.subrange(src as int, src + len)
            + old(buf)@.subrange(dst + len, old(buf)@.len() as int),
{
    let ghost b0 = buf@;
    proof {
        assert(buf.len() == buf@.len());
    }
    let mut block: Vec<u8> = Vec::new();
    let mut i: usize = 0;
    while i < len
        invariant
            i <= len,
            src + len <= buf@.len(),
            buf@.len() <= usize::MAX,
            buf@ == b0,
            block@ == b0.subrange(src as int, src + i),
        decreases len - i,
    {
        block.push(buf[src + i]);
        i = i + 1;
    }
    let mut i: usize = 0;
    while i < len
        invariant
            i <= len,
            dst + len <= b0.len(),
            src + len <= b0.len(),
            b0.len() <= usize::MAX,
            block@ == b0.subrange(src as int, src + len),
            buf@ == b0.subrange(0, dst as int) + block@.subrange(0, i as int) + b0.subrange(dst + i, b0.len() as int),
        decreases len - i,
    {
        buf.set(dst + i, block[i]);
        i = i + 1;
        assert(buf@ =~= b0.subrange(0, dst as int) + block@.subrange(0, i as int) + b0.subrange(dst + i, b0.len() as int));
    }
    assert(block@.subrange(0, len as int) =~= block@);
}

/// Overwrites a block with another block of the buffer. Succeeds when the
/// block is not the whole buffer and the two blocks differ.
pub fn overwrite_within(rng: &mut SmallRng, buf: &mut Vec<u8>) -> (ok: bool)
    ensures
        final(buf)@.len() == old(buf)@.len(),
        !ok ==> final(buf)@ == old(buf)@,
        ok ==> exists|src: int, dst: int, l: int|
            2 <= l <= 32 && l < old(buf)@.len() && 0 <= src && src + l <= old(buf)@.len() && 0 <= dst && dst + l
                <= old(buf)@.len() && src != dst && final(buf)@ == #[trigger] overwritten(old(buf)@, src, dst, l),
{
    let len = buf.len();
    if len < 2 {
        return false;
    }
    let op_len = rand_op_len(rng, len);
    let src = rand_in_range(rng, 0, (len - op_len) as u64) as usize;
    let dst = rand_in_range(rng, 0, (len - op_len) as u64) as usize;
    if op_len != len && src != dst {
        copy_block(buf, src, dst, op_len);
        assert(buf@ == overwritten(old(buf)@, src as int, dst as int, op_len as int));
        return true;
    }
    false
}

/// Overwrites a block with random bytes.
pub fn overwrite_random(rng: &mut SmallRng, buf: &mut Vec<u8>) -> (ok: bool)
    ensures
        ok == (old(buf)@.len() >= 2),
        final(buf)@.len() == old(buf)@.len(),
        !ok ==> final(buf)@ == old(buf)@,
        ok ==> exists|s: int, l: int|
            2 <= l <= 32 && 0 <= s && s + l <= old(buf)@.len() && #[trigger] same_outside(old(buf)@, final(buf)@, s, l),
{
    let len = buf.len();
    if len < 2 {
        return false;
    }
    let (s, l) = rand_op_range(rng, len);
    let ghost b0 = buf@;
    let mut block: Vec<u8> = vec![0u8; l];
    rand_fill(rng, block.as_mut_slice());
    let mut i: usize = 0;
    while i < l
        invariant
            i <= l,
            s + l <= b0.len(),
            b0.len() <= usize::MAX,
            block@.len() == l,
            buf@ == b0.subrange(0, s as int) + block@.subrange(0, i as int) + b0.subrange(s + i, b0.len() as int),
        decreases l - i,
    {
        buf.set(s + i, block[i]);
        i = i + 1;
        assert(buf@ =~= b0.subrange(0, s as int) + block@.subrange(0, i as int) + b0.subrange(s + i, b0.len() as int));
    }
    assert(buf@.subrange(0, s as int) =~= b0.subrange(0, s as int));
    assert(buf@.subrange(s + l, b0.len() as int) =~= b0.subrange(s + l, b0.len() as int));
    assert(same_outside(b0, buf@, s as int, l as int));
    true
}

/// Duplicates a block of the buffer and inserts the copy at a random
/// position, when the buffer has at least 2 bytes and `r.1` leaves room for
/// at least 2 more.
pub fn insert_within(rng: &mut SmallRng, buf: &mut Vec<u8>, r: (u64, u64)) -> (ok: bool)
    ensures
        final(buf)@.len() <= old(buf)@.len() || final(buf)@.len() <= r.1,
        ok == (old(buf)@.len() >= 2 && r.1 >= old(buf)@.len() + 2),
        !ok ==> final(buf)@ == old(buf)@,
        ok ==> exists|src: int, dst: int, l: int|
            2 <= l <= 32 && l <= old(buf)@.len() && old(buf)@.len() + l <= r.1 && 0 <= src && src + l <= old(buf)@.len() && 0
                <= dst <= old(buf)@.len() && final(buf)@ == #[trigger] spliced(old(buf)@, dst, old(buf)@.subrange(src, src + l)),
{
    let len = buf.len();
    let room: u64 = if r.1 > (len as u64) {
        r.1 - (len as u64)
    } else {
        0
    };
    let max_len: usize = if room < (len as u64) {
        room as usize
    } else {
        len
    };
    if max_len < 2 {
        return false;
    }
    let op_len = rand_op_len(rng, max_len);
    let src = rand_in_range(rng, 0, (len - op_len) as u64) as usize;
    let dst = rand_in_range(rng, 0, len as u64) as usize;
    let ghost b0 = buf@;
    let mut out: Vec<u8> = Vec::new();
    let mut i: usize = 0;
    while i < dst
        invariant
            i <= dst <= b0.len(),
            buf@ == b0,
            out@ == b0.subrange(0, i as int),
        decreases dst - i,
    {
        out.push(buf[i]);
        i = i + 1;
    }
    let mut i: usize = 0;
    while i < op_len
        invariant
            i <= op_len,
            src + op_len <= b0.len(),
            b0.len() <= usize::MAX,
            dst <= b0.len(),
            buf@ == b0,
            out@ == b0.subrange(0, dst as int) + b0.subrange(src as int, src + i),
        decreases op_len - i,
    {
        out.push(buf[src + i]);
        i = i + 1;
        assert(out@ =~= b0.subrange(0, dst as int) + b0.subrange(src as int, src + i));
    }
    let mut i: usize = dst;
    while i < len
        invariant
            dst <= i <= len,
            len == b0.len(),
            src + op_len <= b0.len(),
            buf@ == b0,
            out@ == b0.subrange(0, dst as int) + b0.subrange(src as int, src + op_len) + b0.subrange(dst as int, i as int),
        decreases len - i,
    {
        out.push(buf[i]);
        i = i + 1;
        assert(out@ =~= b0.subrange(0, dst as int) + b0.subrange(src as int, src + op_len) + b0.subrange(dst as int, i as int));
    }
    *buf = out;
    assert(buf@ == spliced(b0, dst as int, b0.subrange(src as int, src + op_len)));
    true
}

/// What `insert_new_content` inserts: repetitions of one byte, or random
/// bytes.
pub enum InsertContent {
    Byte(u8),
    Random,
}

/// Inserts a new block of 2 to 32 bytes at a random position, when `r.1`
/// leaves room for at least 2 more bytes; with `Byte(b)` every inserted byte
/// is `b`.
pub fn insert_new_content(rng: &mut SmallRng, buf: &mut Vec<u8>, r: (u64, u64), content: InsertContent) -> (ok: bool)
    ensures
        final(buf)@.len() <= old(buf)@.len() || final(buf)@.len() <= r.1,
        ok == (r.1 >= old(buf)@.len() + 2),
        !ok ==> final(buf)@ == old(buf)@,
        ok ==> exists|s: int, block: Seq<u8>|
            2 <= block.len() <= 32 && old(buf)@.len() + block.len() <= r.1 && 0 <= s <= old(buf)@.len()
                && final(buf)@ == #[trigger] spliced(old(buf)@, s, block)
                && (content matches InsertContent::Byte(b) ==> forall|k: int| 0 <= k < block.len() ==> block[k] == b),
{
    let len = buf.len();
    let room: u64 = if r.1 > (len as u64) {
        r.1 - (len as u64)
    } else {
        0
    };
    if room < 2 {
        return false;
    }
    let max_len: usize = if room < 64 {
        room as usize
    } else {
        64
    };
    let l = rand_op_len(rng, max_len);
    let s = rand_in_range(rng, 0, len as u64) as usize;
    let mut block: Vec<u8> = Vec::new();
    let mut i: usize = 0;
    while i < l
        invariant
            i <= l,
            block@.len() == i,
            content matches InsertContent::Byte(b) ==> forall|k: int| 0 <= k < block@.len() ==> block@[k] == b,
        decreases l - i,
    {
        let b = match content {
            InsertContent::Byte(b) => b,
            InsertContent::Random => rand_byte(rng),
        };
        block.push(b);
        i = i + 1;
    }
    let ghost b0 = buf@;
    let mut out: Vec<u8> = Vec::new();
    let mut i: usize = 0;
    while i < s
        invariant
            i <= s <= b0.len(),
            buf@ == b0,
            out@ == b0.subrange(0, i as int),
        decreases s - i,
    {
        out.push(buf[i]);
        i = i + 1;
    }
    let mut i: usize = 0;
    while i < l
        invariant
            i <= l,
            block@.len() == l,
            s <= b0.len(),
            out@ == b0.subrange(0, s as int) + block@.subrange(0, i as int),
        decreases l - i,
    {
        out.push(block[i]);
        i = i + 1;
        assert(out@ =~= b0.subrange(0, s as int) + block@.subrange(0, i as int));
    }
    let mut i: usize = s;
    while i < len
        invariant
            s <= i <= len,
            len == b0.len(),
            buf@ == b0,
            block@.len() == l,
            out@ == b0.subrange(0, s as int) + block@ + b0.subrange(s as int, i as int),
        decreases len - i,
    {
        out.push(buf[i]);
        i = i + 1;
        assert(out@ =~= b0.subrange(0, s as int) + block@ + b0.subrange(s as int, i as int));
    }
    proof {
        assert(block@.subrange(0, l as int) =~= block@);
        assert(out@ =~= b0.subrange(0, s as int) + block@ + b0.subrange(s as int, len as int));
        assert(out@ == spliced(b0, s as int, block@));
    }
    *buf = out;
    true
}

/// Inserts a block of zero bytes.
pub fn insert_0x00(rng: &mut SmallRng, buf: &mut Vec<u8>, r: (u64, u64)) -> (ok: bool)
    ensures
        final(buf)@.len() <= old(buf)@.len() || final(buf)@.len() <= r.1,
        ok == (r.1 >= old(buf)@.len() + 2),
        !ok ==> final(buf)@ == old(buf)@,
        ok ==> exists|s: int, block: Seq<u8>|
            2 <= block.len() <= 32 && 0 <= s <= old(buf)@.len() && final(buf)@ == #[trigger] spliced(old(buf)@, s, block) && forall|k: int| 0 <= k < block.len() ==> block[k] == 0u8,
{
    insert_new_content(rng, buf, r, InsertContent::Byte(0))
}

/// Inserts a block of 0xff bytes.
pub fn insert_0xff(rng: &mut SmallRng, buf: &mut Vec<u8>, r: (u64, u64)) -> (ok: bool)
    ensures
        final(buf)@.len() <= old(buf)@.len() || final(buf)@.len() <= r.1,
        ok == (r.1 >= old(buf)@.len() + 2),
        !ok ==> final(buf)@ == old(buf)@,
        ok ==> exists|s: int, block: Seq<u8>|
            2 <= block.len() <= 32 && 0 <= s <= old(buf)@.len() && final(buf)@ == #[trigger] spliced(old(buf)@, s, block) && forall|k: int| 0 <= k < block.len() ==> block[k] == 0xffu8,
{
    insert_new_content(rng, buf, r, InsertContent::Byte(0xff))
}

/// Inserts repetitions of one special byte.
pub fn insert_one_special(rng: &mut SmallRng, buf: &mut Vec<u8>, r: (u64, u64)) -> (ok: bool)
    ensures
        final(buf)@.len() <= old(buf)@.len() || final(buf)@.len() <= r.1,
        ok == (r.1 >= old(buf)@.len() + 2),
        !ok ==> final(buf)@ == old(buf)@,
        ok ==> exists|s: int, block: Seq<u8>|
            2 <= block.len() <= 32 && 0 <= s <= old(buf)@.len() && final(buf)@ == #[trigger] spliced(old(buf)@, s, block) && forall|k: int|
                0 <= k < block.len() ==> #[trigger] block[k] == block[0] && SPECIAL_BYTES@.contains(block[k]),
{
    let b = rand_special_byte(rng);
    insert_new_content(rng, buf, r, InsertContent::Byte(b))
}

/// Inserts repetitions of one random byte.
pub fn insert_one_random(rng: &mut SmallRng, buf: &mut Vec<u8>, r: (u64, u64)) -> (ok: bool)
    ensures
        final(buf)@.len() <= old(buf)@.len() || final(buf)@.len() <= r.1,
        ok == (r.1 >= old(buf)@.len() + 2),
        !ok ==> final(buf)@ == old(buf)@,
        ok ==> exists|s: int, block: Seq<u8>|
            2 <= block.len() <= 32 && 0 <= s <= old(buf)@.len() && final(buf)@ == #[trigger] spliced(old(buf)@, s, block) && forall|k: int| 0 <= k < block.len() ==> #[trigger] block[k] == block[0],
{
    let b = rand_byte(rng);
    insert_new_content(rng, buf, r, InsertContent::Byte(b))
}

/// Inserts a block of random bytes.
pub fn insert_random(rng: &mut SmallRng, buf: &mut Vec<u8>, r: (u64, u64)) -> (ok: bool)
    ensures
        final(buf)@.len() <= old(buf)@.len() || final(buf)@.len() <= r.1,
        ok == (r.1 >= old(buf)@.len() + 2),
        !ok ==> final(buf)@ == old(buf)@,
        ok ==> exists|s: int, block: Seq<u8>|
            2 <= block.len() <= 32 && 0 <= s <= old(buf)@.len() && final(buf)@ == #[trigger] spliced(old(buf)@, s, block),
{
    insert_new_content(rng, buf, r, InsertContent::Random)
}

/// Little-endian value of bytes.
pub open spec fn le_val(s: Seq<u8>) -> nat
    decreases s.len(),
{
    if s.len() == 0 {
        0
    } else {
        s[0] as nat + 256 * le_val(s.drop_first())
    }
}

/// `256^n`.
pub open spec fn pow256(n: nat) -> nat
    decreases n,
{
    if n == 0 {
        1
    } else {
        256 * pow256((n - 1) as nat)
    }
}

/// The `n` little-endian bytes of `v` modulo `256^n`.
pub open spec fn le_bytes(v: nat, n: nat) -> Seq<u8>
    decreases n,
{
    if n == 0 {
        Seq::empty()
    } else {
        seq![(v % 256) as u8] + le_bytes(v / 256, (n - 1) as nat)
    }
}

proof fn lemma_le_val_bound(s: Seq<u8>)
    ensures
        le_val(s) < pow256(s.len()),
    decreases s.len(),
{
    if s.len() > 0 {
        lemma_le_val_bound(s.drop_first());
    }
}

/// The width of a scalar is 1, 2, 4 or 8 bytes.
pub open spec fn scalar_width(w: usize) -> bool {
    w == 1 || w == 2 || w == 4 || w == 8
}

/// The bytes of a scalar as stored: little-endian, or big-endian when
/// `swap`.
pub open spec fn stored(s: Seq<u8>, swap: bool) -> Seq<u8> {
    if swap {
        s.reverse()
    } else {
        s
    }
}

/// `b` with `bytes` written at `pos`.
pub open spec fn put_bytes(b: Seq<u8>, pos: int, bytes: Seq<u8>) -> Seq<u8> {
    b.subrange(0, pos) + bytes + b.subrange(pos + bytes.len(), b.len() as int)
}

/// Reads the `w`-byte scalar at `pos`, byte order swapped when `swap`.
fn read_scalar(buf: &Vec<u8>, pos: usize, w: usize, swap: bool) -> (r: u64)
    requires
        scalar_width(w),
        pos + w <= buf@.len(),
    ensures
        r == le_val(stored(buf@.subrange(pos as int, pos + w), swap)),
{
    let ghost s = stored(buf@.subrange(pos as int, pos + w), swap);
    proof {
        assert(buf.len() == buf@.len());
    }
    let mut acc: u128 = 0;
    let mut k: usize = w;
    while k > 0
        invariant
            k <= w,
            scalar_width(w),
            pos + w <= buf@.len(),
            buf@.len() <= usize::MAX,
            s == stored(buf@.subrange(pos as int, pos + w), swap),
            s.len() == w,
            acc == le_val(s.subrange(k as int, w as int)),
        decreases k,
    {
        k = k - 1;
        let b = if swap {
            buf[pos + w - 1 - k]
        } else {
            buf[pos + k]
        };
        proof {
            assert(s[k as int] == b);
            assert(s.subrange(k as int, w as int).drop_first() =~= s.subrange(k + 1, w as int));
            lemma_le_val_bound(s.subrange(k + 1, w as int));
            lemma_pow256_le8((w - k - 1) as nat);
        }
        acc = b as u128 + 256 * acc;
    }
    proof {
        assert(s.subrange(0, w as int) =~= s);
        lemma_le_val_bound(s);
        lemma_pow256_le8(w as nat);
    }
    acc as u64
}

proof fn lemma_pow256_le8(n: nat)
    requires
        n <= 8,
    ensures
        pow256(n) <= 0x1_0000_0000_0000_0000,
{
    reveal_with_fuel(pow256, 9);
}

/// Writes `v` as a `w`-byte scalar at `pos`, byte order swapped when
/// `swap`; only those bytes change.
fn write_scalar(buf: &mut Vec<u8>, pos: usize, w: usize, swap: bool, v: u64)
    requires
        scalar_width(w),
        pos + w <= old(buf)@.len(),
    ensures
        final(buf)@ == put_bytes(old(buf)@, pos as int, stored(le_bytes(v as nat, w as nat), swap)),
        final(buf)@.len() == old(buf)@.len(),
{
    let ghost b0 = buf@;
    let ghost bytes = le_bytes(v as nat, w as nat);
    let ghost st = stored(bytes, swap);
    proof {
        assert(buf.len() == buf@.len());
        lemma_le_bytes_len(v as nat, w as nat);
        assert(bytes.subrange(0, w as int) =~= bytes);
    }
    let mut x: u64 = v;
    let mut k: usize = 0;
    while k < w
        invariant
            k <= w,
            scalar_width(w),
            pos + w <= b0.len(),
            b0.len() <= usize::MAX,
            bytes.len() == w,
            buf@.len() == b0.len(),
            bytes == le_bytes(v as nat, w as nat),
            st == stored(bytes, swap),
            le_bytes(x as nat, (w - k) as nat) == bytes.subrange(k as int, w as int),
            forall|j: int| 0 <= j < b0.len() ==> #[trigger] buf@[j] == (
                if pos <= j < pos + w && (if swap { j >= pos + w - k } else { j < pos + k }) {
                    st[j - pos]
                } else {
                    b0[j]
                }),
        decreases w - k,
    {
        proof {
            lemma_le_bytes_len(v as nat, w as nat);
            assert(le_bytes(x as nat, (w - k) as nat) =~= seq![(x % 256) as u8] + le_bytes((x / 256) as nat, (w - k - 1) as nat));
            assert(le_bytes(x as nat, (w - k) as nat)[0] == (x % 256) as u8);
            assert(bytes.subrange(k as int, w as int)[0] == bytes[k as int]);
            assert(bytes[k as int] == (x % 256) as u8);
            assert(bytes.subrange(k + 1, w as int) =~= le_bytes(x as nat, (w - k) as nat).drop_first());
        }
        let b = (x % 256) as u8;
        let idx = if swap {
            pos + w - 1 - k
        } else {
            pos + k
        };
        buf.set(idx, b);
        x = x / 256;
        k = k + 1;
    }
    proof {
        lemma_le_bytes_len(v as nat, w as nat);
        assert(buf@ =~= b0.subrange(0, pos as int) + st + b0.subrange(pos + w, b0.len() as int));
        assert(st.len() == w);
        assert(buf@.len() == b0.len());
    }
}

proof fn lemma_le_bytes_len(v: nat, n: nat)
    ensures
        le_bytes(v, n).len() == n,
    decreases n,
{
    if n > 0 {
        lemma_le_bytes_len(v / 256, (n - 1) as nat);
    }
}

/// `256^w` for a scalar width.
fn width_modulus(w: usize) -> (r: u128)
    requires
        scalar_width(w),
    ensures
        r == pow256(w as nat),
{
    proof {
        reveal_with_fuel(pow256, 9);
    }
    if w == 1 {
        256
    } else if w == 2 {
        65536
    } else if w == 4 {
        0x1_0000_0000
    } else {
        0x1_0000_0000_0000_0000
    }
}

/// Writes the buffer's length as a `w`-byte scalar at one of the first 64
/// positions, when the buffer holds a scalar and its length fits in `w`
/// bytes.
pub fn set_length(rng: &mut SmallRng, buf: &mut Vec<u8>, w: usize) -> (ok: bool)
    requires
        scalar_width(w),
    ensures
        final(buf)@.len() == old(buf)@.len(),
        ok == (old(buf)@.len() >= w && old(buf)@.len() < pow256(w as nat)),
        !ok ==> final(buf)@ == old(buf)@,
        ok ==> exists|pos: int, swap: bool|
            0 <= pos < 64 && pos + w <= old(buf)@.len() && final(buf)@ == #[trigger] put_bytes(old(buf)@, pos, stored(
                le_bytes(old(buf)@.len(), w as nat),
                swap,
            )),
{
    let len = buf.len();
    if len < w {
        return false;
    }
    let swap = rand_ratio(rng, 1, 2);
    let pos_max: usize = if len - w + 1 < 64 {
        len - w + 1
    } else {
        64
    };
    let pos = rand_in_range(rng, 0, (pos_max - 1) as u64) as usize;
    let m = width_modulus(w);
    if (len as u128) >= m {
        return false;
    }
    write_scalar(buf, pos, w, swap, len as u64);
    true
}

/// `b` with the `w`-byte scalar at `pos` increased by `d` (negated when `d`
/// is 0), modulo `256^w`.
pub open spec fn perturbed(b: Seq<u8>, pos: int, w: nat, swap: bool, d: int) -> Seq<u8> {
    let v = le_val(stored(b.subrange(pos, pos + w), swap));
    let nv = if d == 0 {
        (pow256(w) - v) % (pow256(w) as int)
    } else {
        (v + d) % (pow256(w) as int)
    };
    put_bytes(b, pos, stored(le_bytes(nv as nat, w), swap))
}

/// Adds to a random `w`-byte scalar a number in `[-35, 35]`, or negates it
/// when the number is 0 (modulo `256^w`).
pub fn perturb(rng: &mut SmallRng, buf: &mut Vec<u8>, w: usize) -> (ok: bool)
    requires
        scalar_width(w),
    ensures
        final(buf)@.len() == old(buf)@.len(),
        ok == (old(buf)@.len() >= w),
        !ok ==> final(buf)@ == old(buf)@,
        ok ==> exists|pos: int, swap: bool, d: int|
            -35 <= d <= 35 && 0 <= pos && pos + w <= old(buf)@.len() && final(buf)@ == #[trigger] perturbed(
                old(buf)@,
                pos,
                w as nat,
                swap,
                d,
            ),
{
    let len = buf.len();
    if len < w {
        return false;
    }
    let swap = rand_ratio(rng, 1, 2);
    let pos = rand_in_range(rng, 0, (len - w) as u64) as usize;
    let v = read_scalar(buf, pos, w, swap);
    let m = width_modulus(w);
    proof {
        lemma_le_val_bound(stored(buf@.subrange(pos as int, pos + w), swap));
        lemma_pow256_le8(w as nat);
        assert(stored(buf@.subrange(pos as int, pos + w), swap).len() == w);
    }
    let r = rand_in_range(rng, 0, 70);
    let nv: u128 = if r == 35 {
        (m - v as u128) % m
    } else if r > 35 {
        (v as u128 + (r - 35) as u128) % m
    } else {
        (v as u128 + m - (35 - r) as u128) % m
    };
    let ghost d: int = r - 35;
    proof {
        if r < 35 {
            assert((v + m - (35 - r)) % (m as int) == (v + d) % (m as int)) by (nonlinear_arith)
                requires
                    m > 0,
                    d == r - 35,;
        }
    }
    assert(nv < m);
    assert(nv as u64 as nat == nv as nat);
    write_scalar(buf, pos, w, swap, nv as u64);
    assert(buf@ == perturbed(old(buf)@, pos as int, w as nat, swap, d));
    true
}

/// Magic values of one byte.
pub const MAGIC8: [u64; 9] = [0, 1, 16, 32, 64, 100, 127, 128, 255];

/// Magic values of two bytes.
pub const MAGIC16: [u64; 10] = [128, 255, 256, 512, 1000, 1024, 4096, 32767, 32768, 65407];

/// Magic values of four bytes.
pub const MAGIC32: [u64; 8] = [
    32768,
    65535,
    65536,
    100663045,
    2147483647,
    2147483648,
    4194304250,
    4294934527,
];

/// Writes one of `magic` as a `w`-byte scalar at a random position.
fn replace_magic(rng: &mut SmallRng, buf: &mut Vec<u8>, w: usize, magic: &[u64]) -> (ok: bool)
    requires
        scalar_width(w),
        magic@.len() > 0,
    ensures
        final(buf)@.len() == old(buf)@.len(),
        ok == (old(buf)@.len() >= w),
        !ok ==> final(buf)@ == old(buf)@,
        ok ==> exists|pos: int, swap: bool, m: u64|
            magic@.contains(m) && 0 <= pos && pos + w <= old(buf)@.len() && final(buf)@ == #[trigger] put_bytes(
                old(buf)@,
                pos,
                stored(le_bytes(m as nat, w as nat), swap),
            ),
{
    let len = buf.len();
    if len < w {
        return false;
    }
    let swap = rand_ratio(rng, 1, 2);
    let pos = rand_in_range(rng, 0, (len - w) as u64) as usize;
    let i = rand_index(rng, magic.len());
    let m = magic[i];
    assert(magic@[i as int] == m);
    write_scalar(buf, pos, w, swap, m);
    true
}

/// `set_length` on one byte.
pub fn set_length8(rng: &mut SmallRng, buf: &mut Vec<u8>) -> (ok: bool)
    ensures
        final(buf)@.len() == old(buf)@.len(),
        ok == (1 <= old(buf)@.len() < 256),
        !ok ==> final(buf)@ == old(buf)@,
        ok ==> length_written(old(buf)@, final(buf)@, 1),
{
    proof {
        reveal_with_fuel(pow256, 2);
    }
    set_length(rng, buf, 1)
}

/// `set_length` on two bytes.
pub fn set_length16(rng: &mut SmallRng, buf: &mut Vec<u8>) -> (ok: bool)
    ensures
        final(buf)@.len() == old(buf)@.len(),
        ok == (2 <= old(buf)@.len() < 65536),
        !ok ==> final(buf)@ == old(buf)@,
        ok ==> length_written(old(buf)@, final(buf)@, 2),
{
    proof {
        reveal_with_fuel(pow256, 3);
    }
    set_length(rng, buf, 2)
}

/// `set_length` on four bytes.
pub fn set_length32(rng: &mut SmallRng, buf: &mut Vec<u8>) -> (ok: bool)
    ensures
        final(buf)@.len() == old(buf)@.len(),
        ok == (4 <= old(buf)@.len() < 0x1_0000_0000),
        !ok ==> final(buf)@ == old(buf)@,
        ok ==> length_written(old(buf)@, final(buf)@, 4),
{
    proof {
        reveal_with_fuel(pow256, 5);
    }
    set_length(rng, buf, 4)
}

/// `set_length` on eight bytes.
pub fn set_length64(rng: &mut SmallRng, buf: &mut Vec<u8>) -> (ok: bool)
    ensures
        final(buf)@.len() == old(buf)@.len(),
        ok == (8 <= old(buf)@.len()),
        !ok ==> final(buf)@ == old(buf)@,
        ok ==> length_written(old(buf)@, final(buf)@, 8),
{
    proof {
        reveal_with_fuel(pow256, 9);
        assert(buf.len() == buf@.len());
    }
    set_length(rng, buf, 8)
}

/// `perturb` on one byte.
pub fn perturb8(rng: &mut SmallRng, buf: &mut Vec<u8>) -> (ok: bool)
    ensures
        final(buf)@.len() == old(buf)@.len(),
        ok == (old(buf)@.len() >= 1),
        !ok ==> final(buf)@ == old(buf)@,
        ok ==> scalar_perturbed(old(buf)@, final(buf)@, 1),
{
    perturb(rng, buf, 1)
}

/// `perturb` on two bytes.
pub fn perturb16(rng: &mut SmallRng, buf: &mut Vec<u8>) -> (ok: bool)
    ensures
        final(buf)@.len() == old(buf)@.len(),
        ok == (old(buf)@.len() >= 2),
        !ok ==> final(buf)@ == old(buf)@,
        ok ==> scalar_perturbed(old(buf)@, final(buf)@, 2),
{
    perturb(rng, buf, 2)
}

/// `perturb` on four bytes.
pub fn perturb32(rng: &mut SmallRng, buf: &mut Vec<u8>) -> (ok: bool)
    ensures
        final(buf)@.len() == old(buf)@.len(),
        ok == (old(buf)@.len() >= 4),
        !ok ==> final(buf)@ == old(buf)@,
        ok ==> scalar_perturbed(old(buf)@, final(buf)@, 4),
{
    perturb(rng, buf, 4)
}

/// `perturb` on eight bytes.
pub fn perturb64(rng: &mut SmallRng, buf: &mut Vec<u8>) -> (ok: bool)
    ensures
        final(buf)@.len() == old(buf)@.len(),
        ok == (old(buf)@.len() >= 8),
        !ok ==> final(buf)@ == old(buf)@,
        ok ==> scalar_perturbed(old(buf)@, final(buf)@, 8),
{
    perturb(rng, buf, 8)
}

/// Writes a one-byte magic value.
pub fn replace_magic8(rng: &mut SmallRng, buf: &mut Vec<u8>) -> (ok: bool)
    ensures
        final(buf)@.len() == old(buf)@.len(),
        ok == (old(buf)@.len() >= 1),
        !ok ==> final(buf)@ == old(buf)@,
        ok ==> magic_written(old(buf)@, final(buf)@, 1, MAGIC8@),
{
    replace_magic(rng, buf, 1, &MAGIC8)
}

/// Writes a two-byte magic value.
pub fn replace_magic16(rng: &mut SmallRng, buf: &mut Vec<u8>) -> (ok: bool)
    ensures
        final(buf)@.len() == old(buf)@.len(),
        ok == (old(buf)@.len() >= 2),
        !ok ==> final(buf)@ == old(buf)@,
        ok ==> magic_written(old(buf)@, final(buf)@, 2, MAGIC16@),
{
    replace_magic(rng, buf, 2, &MAGIC16)
}

/// Writes a four-byte magic value.
pub fn replace_magic32(rng: &mut SmallRng, buf: &mut Vec<u8>) -> (ok: bool)
    ensures
        final(buf)@.len() == old(buf)@.len(),
        ok == (old(buf)@.len() >= 4),
        !ok ==> final(buf)@ == old(buf)@,
        ok ==> magic_written(old(buf)@, final(buf)@, 4, MAGIC32@),
{
    replace_magic(rng, buf, 4, &MAGIC32)
}

/// Inserts `val` at a random position when the buffer is shorter than
/// `r.1`.
pub fn do_insert_one(rng: &mut SmallRng, buf: &mut Vec<u8>, r: (u64, u64), val: u8) -> (ok: bool)
    ensures
        final(buf)@.len() <= old(buf)@.len() || final(buf)@.len() <= r.1,
        ok == (old(buf)@.len() < r.1),
        !ok ==> final(buf)@ == old(buf)@,
        ok ==> exists|pos: int| 0 <= pos <= old(buf)@.len() && final(buf)@ == #[trigger] old(buf)@.insert(pos, val),
{
    if (buf.len() as u64) < r.1 {
        let pos = rand_in_range(rng, 0, buf.len() as u64) as usize;
        buf.insert(pos, val);
        return true;
    }
    false
}

/// Inserts a random byte.
pub fn insert8(rng: &mut SmallRng, buf: &mut Vec<u8>, r: (u64, u64)) -> (ok: bool)
    ensures
        final(buf)@.len() <= old(buf)@.len() || final(buf)@.len() <= r.1,
        ok == (old(buf)@.len() < r.1),
        !ok ==> final(buf)@ == old(buf)@,
        ok ==> exists|pos: int, b: u8| 0 <= pos <= old(buf)@.len() && final(buf)@ == #[trigger] old(buf)@.insert(pos, b),
{
    let val = rand_byte(rng);
    do_insert_one(rng, buf, r, val)
}

/// Inserts a special byte.
pub fn insert_special8(rng: &mut SmallRng, buf: &mut Vec<u8>, r: (u64, u64)) -> (ok: bool)
    ensures
        final(buf)@.len() <= old(buf)@.len() || final(buf)@.len() <= r.1,
        ok == (old(buf)@.len() < r.1),
        !ok ==> final(buf)@ == old(buf)@,
        ok ==> exists|pos: int, b: u8|
            0 <= pos <= old(buf)@.len() && SPECIAL_BYTES@.contains(b) && final(buf)@ == #[trigger] old(buf)@.insert(pos, b),
{
    let val = rand_special_byte(rng);
    do_insert_one(rng, buf, r, val)
}

/// Flips one bit of one byte.
pub fn modify1(rng: &mut SmallRng, buf: &mut Vec<u8>) -> (ok: bool)
    requires
        old(buf)@.len() > 0,
    ensures
        final(buf)@.len() == old(buf)@.len(),
        ok,
        exists|pos: int, bit: u8|
            0 <= pos < old(buf)@.len() && bit < 8 && final(buf)@ == #[trigger] old(buf)@.update(pos, old(buf)@[pos] ^ (1u8 << bit)),
{
    let pos = rand_index(rng, buf.len());
    let bit = rand_in_range(rng, 0, 7) as u8;
    let b = buf[pos] ^ (1u8 << bit);
    buf.set(pos, b);
    true
}

/// Changes one byte by xor with a non-zero byte.
pub fn modify8(rng: &mut SmallRng, buf: &mut Vec<u8>) -> (ok: bool)
    requires
        old(buf)@.len() > 0,
    ensures
        final(buf)@.len() == old(buf)@.len(),
        ok,
        exists|pos: int, k: u8|
            0 <= pos < old(buf)@.len() && 1 <= k && final(buf)@ == #[trigger] old(buf)@.update(pos, old(buf)@[pos] ^ k),
{
    let pos = rand_index(rng, buf.len());
    let k = (1 + rand_in_range(rng, 0, 254)) as u8;
    let b = buf[pos] ^ k;
    buf.set(pos, b);
    true
}

/// Replaces one byte with a special byte.
pub fn modify_special8(rng: &mut SmallRng, buf: &mut Vec<u8>) -> (ok: bool)
    requires
        old(buf)@.len() > 0,
    ensures
        final(buf)@.len() == old(buf)@.len(),
        ok,
        exists|pos: int, b: u8|
            0 <= pos < old(buf)@.len() && SPECIAL_BYTES@.contains(b) && final(buf)@ == #[trigger] old(buf)@.update(pos, b),
{
    let pos = rand_index(rng, buf.len());
    let b = rand_special_byte(rng);
    buf.set(pos, b);
    true
}

/// The `n` lowest decimal digits of `v`, most significant first, in ASCII.
pub open spec fn digits(v: nat, n: nat) -> Seq<u8>
    decreases n,
{
    if n == 0 {
        Seq::empty()
    } else {
        digits(v / 10, (n - 1) as nat).push((v % 10 + 48) as u8)
    }
}

proof fn lemma_digits_len(v: nat, n: nat)
    ensures
        digits(v, n).len() == n,
    decreases n,
{
    if n > 0 {
        lemma_digits_len(v / 10, (n - 1) as nat);
    }
}

/// Writes the `n` lowest decimal digits of `v` at `start`.
pub fn print_int(buf: &mut Vec<u8>, start: usize, n: usize, v: u64)
    requires
        start + n <= old(buf)@.len(),
    ensures
        final(buf)@ == put_bytes(old(buf)@, start as int, digits(v as nat, n as nat)),
    decreases n,
{
    proof {
        lemma_digits_len(v as nat, n as nat);
        assert(buf.len() == buf@.len());
    }
    if n == 0 {
        assert(buf@ =~= put_bytes(old(buf)@, start as int, digits(v as nat, n as nat)));
        return;
    }
    let d = (v % 10) as u8 + 48;
    buf.set(start + n - 1, d);
    print_int(buf, start, n - 1, v / 10);
    proof {
        lemma_digits_len((v / 10) as nat, (n - 1) as nat);
        assert(buf@ =~= put_bytes(old(buf)@, start as int, digits(v as nat, n as nat)));
    }
}

/// An ASCII decimal digit.
pub open spec fn is_digit(b: u8) -> bool {
    48 <= b <= 57
}

/// The decimal number read from `s` at `i` onto `v`, and where reading
/// stops: at the end, at a non-digit, or before a digit that would overflow.
pub open spec fn parse_from(s: Seq<u8>, i: int, v: nat) -> (nat, int)
    decreases s.len() - i,
{
    if i < 0 || i >= s.len() {
        (v, s.len() as int)
    } else if !is_digit(s[i]) {
        (v, i)
    } else if v * 10 + (s[i] - 48) > u64::MAX {
        (v, i)
    } else {
        parse_from(s, i + 1, (v * 10 + (s[i] - 48)) as nat)
    }
}

/// Reads a decimal number at `start`; gives it and where reading stopped
/// (see `parse_from`).
pub fn parse_int(buf: &Vec<u8>, start: usize) -> (r: (u64, usize))
    requires
        start <= buf@.len(),
    ensures
        (r.0 as nat, r.1 as int) == parse_from(buf@, start as int, 0),
{
    let mut v: u64 = 0;
    let mut i: usize = start;
    while i < buf.len()
        invariant
            start <= i <= buf@.len(),
            parse_from(buf@, i as int, v as nat) == parse_from(buf@, start as int, 0),
        decreases buf.len() - i,
    {
        let x = buf[i];
        if !(48 <= x && x <= 57) {
            return (v, i);
        }
        let d = (x - 48) as u64;
        if v > (u64::MAX - d) / 10 {
            assert(v * 10 + d > u64::MAX) by (nonlinear_arith)
                requires
                    v > (u64::MAX - d) / 10,
                    d <= 9,;
            return (v, i);
        }
        assert(v * 10 + d <= u64::MAX) by (nonlinear_arith)
            requires
                v <= (u64::MAX - d) / 10,
                d <= 9,;
        v = v * 10 + d;
        i = i + 1;
    }
    (v, buf.len())
}

/// The first digit at or after `start`.
pub fn find_first_digit(buf: &Vec<u8>, start: usize) -> (r: Option<usize>)
    ensures
        r matches Some(i) ==> start <= i < buf@.len() && is_digit(buf@[i as int]) && forall|j: int|
            start <= j < i ==> !is_digit(#[trigger] buf@[j]),
        r is None ==> forall|j: int| start <= j < buf@.len() ==> !is_digit(#[trigger] buf@[j]),
{
    let mut i: usize = start;
    while i < buf.len()
        invariant
            start <= i,
            forall|j: int| start <= j < i && j < buf@.len() ==> !is_digit(#[trigger] buf@[j]),
        decreases buf.len() - i,
    {
        if 48 <= buf[i] && buf[i] <= 57 {
            return Some(i);
        }
        i = i + 1;
    }
    None
}

/// What an ASCII number may become: the number plus one, minus one,
/// halved, doubled (all wrapping), or a number below its square (wrapping,
/// with the lowest bit set).
pub open spec fn ascii_int_new(v: u64, new: u64) -> bool {
    ||| new == vstd::wrapping::u64_specs::wrapping_add(v, 1)
    ||| new == vstd::wrapping::u64_specs::wrapping_sub(v, 1)
    ||| new == v / 2
    ||| new == vstd::wrapping::u64_specs::wrapping_mul(v, 2)
    ||| new < (vstd::wrapping::u64_specs::wrapping_mul(v, v) | 1u64)
}

/// The digits of an ASCII number of `o`, as many as were read, were
/// replaced by the low digits of what the number became.
pub open spec fn ascii_int_changed(o: Seq<u8>, n: Seq<u8>) -> bool {
    exists|start: int, new: u64|
        0 <= start < o.len() && is_digit(o[start]) && ascii_int_new(parse_from(o, start, 0).0 as u64, new) && n
            == #[trigger] put_bytes(o, start, digits(new as nat, (parse_from(o, start, 0).1 - start) as nat))
}

/// Changes an ASCII number: from a random position, the first digits are
/// read as a number, which is replaced by the number plus one, minus one,
/// halved, doubled (all wrapping), or a random number below its square,
/// written over the same digits. Fails when no digit follows the position,
/// so always when there is no digit and never when the last byte is one.
pub fn modify_ascii_int(rng: &mut SmallRng, buf: &mut Vec<u8>) -> (ok: bool)
    requires
        old(buf)@.len() > 0,
    ensures
        final(buf)@.len() == old(buf)@.len(),
        !ok ==> final(buf)@ == old(buf)@,
        ok ==> ascii_int_changed(old(buf)@, final(buf)@),
        is_digit(old(buf)@.last()) ==> ok,
        (forall|j: int| 0 <= j < old(buf)@.len() ==> !is_digit(#[trigger] old(buf)@[j])) ==> !ok,
{
    let from = rand_index(rng, buf.len());
    let start = match find_first_digit(buf, from) {
        Some(s) => s,
        None => {
            assert(!is_digit(buf@[buf@.len() - 1]));
            return false;
        },
    };
    let (v, end) = parse_int(buf, start);
    proof {
        lemma_parse_end(buf@, start as int, 0);
    }
    let op = rand_in_range(rng, 0, 4);
    let new = if op == 0 {
        v.wrapping_add(1)
    } else if op == 1 {
        v.wrapping_sub(1)
    } else if op == 2 {
        v / 2
    } else if op == 3 {
        v.wrapping_mul(2)
    } else {
        let w = v.wrapping_mul(v);
        let sq = w | 1;
        assert(sq >= 1) by (bit_vector)
            requires
                sq == w | 1,;
        rand_in_range(rng, 0, sq - 1)
    };
    print_int(buf, start, end - start, new);
    proof {
        lemma_digits_len(new as nat, (end - start) as nat);
    }
    assert(buf@ == put_bytes(old(buf)@, start as int, digits(new as nat, (parse_from(old(buf)@, start as int, 0).1 - start) as nat)));
    assert(ascii_int_new(v, new));
    true
}

proof fn lemma_parse_end(s: Seq<u8>, i: int, v: nat)
    requires
        0 <= i <= s.len(),
    ensures
        i <= parse_from(s, i, v).1 <= s.len(),
    decreases s.len() - i,
{
    if i < s.len() && is_digit(s[i]) && v * 10 + (s[i] - 48) <= u64::MAX {
        lemma_parse_end(s, i + 1, (v * 10 + (s[i] - 48)) as nat);
    }
}

/// Number of blob mutation operations.
pub const BLOB_MUTATE_OPERATIONS: usize = 27;

/// Whether blob operation `op` succeeds on `len` bytes with length range
/// `r`, for the operations where that does not depend on chance.
pub open spec fn blob_op_ok(op: int, len: int, r: (u64, u64)) -> Option<bool> {
    if op == 0 || op == 3 {
        Some(len >= 2)
    } else if op == 1 {
        Some(len >= r.0 + 2)
    } else if op == 2 || op == 26 {
        None
    } else if op == 4 {
        Some(len >= 2 && r.1 >= len + 2)
    } else if 5 <= op <= 9 {
        Some(r.1 >= len + 2)
    } else if op == 10 {
        Some(1 <= len < 256)
    } else if op == 11 || op == 12 {
        Some(len >= 1)
    } else if op == 13 {
        Some(2 <= len < 65536)
    } else if op == 14 || op == 15 {
        Some(len >= 2)
    } else if op == 16 {
        Some(4 <= len < 0x1_0000_0000)
    } else if op == 17 || op == 18 {
        Some(len >= 4)
    } else if op == 19 || op == 20 {
        Some(len >= 8)
    } else if op == 21 || op == 22 {
        Some(len < r.1)
    } else {
        Some(len > 0)
    }
}

/// What blob operation `op` made of `o` when it succeeded, giving `n`.
pub open spec fn blob_op_done(op: int, o: Seq<u8>, n: Seq<u8>, r: (u64, u64)) -> bool {
    if op == 0 {
        n.len() == o.len() && n.to_multiset() == o.to_multiset()
    } else if op == 1 {
        exists|s: int, l: int| 2 <= l <= 32 && 0 <= s && s + l <= o.len() - r.0 && n == #[trigger] cut(o, s, l)
    } else if op == 2 {
        exists|src: int, dst: int, l: int|
            2 <= l <= 32 && l < o.len() && 0 <= src && src + l <= o.len() && 0 <= dst && dst + l <= o.len() && src
                != dst && n == #[trigger] overwritten(o, src, dst, l)
    } else if op == 3 {
        exists|s: int, l: int| 2 <= l <= 32 && 0 <= s && s + l <= o.len() && #[trigger] same_outside(o, n, s, l)
    } else if op == 4 {
        exists|src: int, dst: int, l: int|
            2 <= l <= 32 && l <= o.len() && o.len() + l <= r.1 && 0 <= src && src + l <= o.len() && 0 <= dst
                <= o.len() && n == #[trigger] spliced(o, dst, o.subrange(src, src + l))
    } else if op == 5 {
        exists|s: int, block: Seq<u8>|
            2 <= block.len() <= 32 && 0 <= s <= o.len() && n == #[trigger] spliced(o, s, block) && forall|k: int|
                0 <= k < block.len() ==> block[k] == 0u8
    } else if op == 6 {
        exists|s: int, block: Seq<u8>|
            2 <= block.len() <= 32 && 0 <= s <= o.len() && n == #[trigger] spliced(o, s, block) && forall|k: int|
                0 <= k < block.len() ==> block[k] == 0xffu8
    } else if op == 7 {
        exists|s: int, block: Seq<u8>|
            2 <= block.len() <= 32 && 0 <= s <= o.len() && n == #[trigger] spliced(o, s, block) && forall|k: int|
                0 <= k < block.len() ==> #[trigger] block[k] == block[0] && SPECIAL_BYTES@.contains(block[k])
    } else if op == 8 {
        exists|s: int, block: Seq<u8>|
            2 <= block.len() <= 32 && 0 <= s <= o.len() && n == #[trigger] spliced(o, s, block) && forall|k: int|
                0 <= k < block.len() ==> #[trigger] block[k] == block[0]
    } else if op == 9 {
        exists|s: int, block: Seq<u8>| 2 <= block.len() <= 32 && 0 <= s <= o.len() && n == #[trigger] spliced(o, s, block)
    } else if op == 10 || op == 13 || op == 16 || op == 19 {
        length_written(o, n, if op == 10 { 1 } else if op == 13 { 2 } else if op == 16 { 4 } else { 8 })
    } else if op == 11 || op == 14 || op == 17 || op == 20 {
        scalar_perturbed(o, n, if op == 11 { 1 } else if op == 14 { 2 } else if op == 17 { 4 } else { 8 })
    } else if op == 12 {
        magic_written(o, n, 1, MAGIC8@)
    } else if op == 15 {
        magic_written(o, n, 2, MAGIC16@)
    } else if op == 18 {
        magic_written(o, n, 4, MAGIC32@)
    } else if op == 21 {
        exists|pos: int, b: u8| 0 <= pos <= o.len() && n == #[trigger] o.insert(pos, b)
    } else if op == 22 {
        exists|pos: int, b: u8| 0 <= pos <= o.len() && SPECIAL_BYTES@.contains(b) && n == #[trigger] o.insert(pos, b)
    } else if op == 23 {
        exists|pos: int, bit: u8| 0 <= pos < o.len() && bit < 8 && n == #[trigger] o.update(pos, o[pos] ^ (1u8 << bit))
    } else if op == 24 {
        exists|pos: int, k: u8| 0 <= pos < o.len() && 1 <= k && n == #[trigger] o.update(pos, o[pos] ^ k)
    } else if op == 25 {
        exists|pos: int, b: u8| 0 <= pos < o.len() && SPECIAL_BYTES@.contains(b) && n == #[trigger] o.update(pos, b)
    } else {
        ascii_int_changed(o, n)
    }
}

/// Applies blob mutation operation number `op`: shuffle, erase, overwrite
/// within, overwrite random, insert within, insert zeros, insert 0xff,
/// insert one special byte, insert one random byte, insert random bytes,
/// then set length / perturb / replace magic for 8, 16 and 32 bits, set
/// length and perturb for 64 bits, insert a byte, insert a special byte,
/// flip a bit, change a byte, write a special byte, change an ASCII number
/// (see `blob_op_ok` for when each succeeds and `blob_op_done` for what it
/// does). Operations on single bytes fail on an empty buffer. A failed
/// operation leaves the buffer as it was. No operation grows the buffer
/// past `r.1`.
pub fn apply_blob_op(rng: &mut SmallRng, buf: &mut Vec<u8>, r: (u64, u64), op: usize) -> (ok: bool)
    requires
        op < BLOB_MUTATE_OPERATIONS,
    ensures
        old(buf)@.len() <= r.1 ==> final(buf)@.len() <= r.1,
        blob_op_ok(op as int, old(buf)@.len() as int, r) matches Some(b) ==> ok == b,
        op == 26 ==> (ok ==> old(buf)@.len() > 0),
        op == 26 && old(buf)@.len() > 0 && is_digit(old(buf)@.last()) ==> ok,
        op == 26 && (forall|j: int| 0 <= j < old(buf)@.len() ==> !is_digit(#[trigger] old(buf)@[j])) ==> !ok,
        !ok ==> final(buf)@ == old(buf)@,
        ok ==> blob_op_done(op as int, old(buf)@, final(buf)@, r),
{
    let empty = buf.len() == 0;
    match op {
        0 => shuffle(rng, buf),
        1 => erase(rng, buf, r),
        2 => overwrite_within(rng, buf),
        3 => overwrite_random(rng, buf),
        4 => insert_within(rng, buf, r),
        5 => insert_0x00(rng, buf, r),
        6 => insert_0xff(rng, buf, r),
        7 => insert_one_special(rng, buf, r),
        8 => insert_one_random(rng, buf, r),
        9 => insert_random(rng, buf, r),
        10 => set_length8(rng, buf),
        11 => perturb8(rng, buf),
        12 => replace_magic8(rng, buf),
        13 => set_length16(rng, buf),
        14 => perturb16(rng, buf),
        15 => replace_magic16(rng, buf),
        16 => set_length32(rng, buf),
        17 => perturb32(rng, buf),
        18 => replace_magic32(rng, buf),
        19 => set_length64(rng, buf),
        20 => perturb64(rng, buf),
        21 => insert8(rng, buf, r),
        22 => insert_special8(rng, buf, r),
        23 => !empty && modify1(rng, buf),
        24 => !empty && modify8(rng, buf),
        25 => !empty && modify_special8(rng, buf),
        _ => !empty && modify_ascii_int(rng, buf),
    }
}

/// `n` comes from `o` by at most `k` blob operations that succeeded.
pub open spec fn blob_steps(o: Seq<u8>, n: Seq<u8>, r: (u64, u64), k: nat) -> bool
    decreases k,
{
    if k == 0 {
        n == o
    } else {
        ||| blob_steps(o, n, r, (k - 1) as nat)
        ||| exists|m: Seq<u8>, op: int|
            0 <= op < BLOB_MUTATE_OPERATIONS && blob_steps(o, m, r, (k - 1) as nat) && #[trigger] blob_op_done(
                op,
                m,
                n,
                r,
            )
    }
}

proof fn lemma_blob_steps_more(o: Seq<u8>, n: Seq<u8>, r: (u64, u64), k: nat, k2: nat)
    requires
        blob_steps(o, n, r, k),
        k <= k2,
    ensures
        blob_steps(o, n, r, k2),
    decreases k2,
{
    if k2 > k {
        lemma_blob_steps_more(o, n, r, k, (k2 - 1) as nat);
    }
}

/// What bringing the length of `m` into `r` may give (see
/// `fixup_blob_length`).
pub open spec fn length_fixed(m: Seq<u8>, n: Seq<u8>, r: (u64, u64)) -> bool {
    if m.len() < r.0 {
        n.len() == r.0 && n.subrange(0, m.len() as int) == m
    } else if m.len() > r.1 {
        n == m.subrange(0, r.1 as int)
    } else {
        n == m
    }
}

/// Mutates the bytes: applies random operations until one succeeds, then
/// goes on with probability 1/3 each time, at most 128 times; a length
/// outside `r` is then brought into it with probability 99/100.
pub fn do_mutate_blob(rng: &mut SmallRng, buf: &mut Vec<u8>, r: (u64, u64))
    requires
        r.0 <= r.1 <= usize::MAX,
    ensures
        old(buf)@.len() <= r.1 ==> final(buf)@.len() <= r.1,
        exists|m: Seq<u8>|
            #[trigger] blob_steps(old(buf)@, m, r, 128) && (final(buf)@ == m || length_fixed(m, final(buf)@, r)),
{
    let ghost within = buf@.len() <= r.1;
    let mut mutated = false;
    let mut tries: u32 = 0;
    loop
        invariant
            tries <= 128,
            within ==> buf@.len() <= r.1,
            blob_steps(old(buf)@, buf@, r, tries as nat),
        decreases 128 - tries,
    {
        if tries >= 128 {
            break;
        }
        if mutated && !rand_ratio(rng, 1, 3) {
            break;
        }
        let op = rand_index(rng, BLOB_MUTATE_OPERATIONS);
        let ghost prev = buf@;
        mutated = apply_blob_op(rng, buf, r, op);
        proof {
            if mutated {
                assert(blob_op_done(op as int, prev, buf@, r));
            }
            assert(blob_steps(old(buf)@, buf@, r, (tries + 1) as nat));
        }
        tries = tries + 1;
    }
    let ghost m = buf@;
    proof {
        lemma_blob_steps_more(old(buf)@, m, r, tries as nat, 128);
    }
    let len = buf.len() as u64;
    if !(r.0 <= len && len <= r.1) && rand_ratio(rng, 99, 100) {
        fixup_blob_length(rng, buf, r);
    }
}

/// Length range of a blob type: its own, or `(0, MAX_BLOB_LEN)`.
pub open spec fn blob_range(ty: Type) -> (u64, u64) {
    match ty {
        Type::BufferBlob(t) => match t.range {
            Some(r) => r,
            None => (0, MAX_BLOB_LEN),
        },
        _ => (0, MAX_BLOB_LEN),
    }
}

/// Mutates a blob value: the size of an output blob is moved a little
/// (see `mutate_blob_len`), the bytes of another are mutated (see
/// `do_mutate_blob`); the length stays within the type's range end.
pub fn mutate_blob(target: &Target, rng: &mut SmallRng, val: &mut Value)
    requires
        target.wf(),
        has_ty(target.tys@, old(val).comm.ty_id),
        ty_with_id(target.tys@, old(val).comm.ty_id) is BufferBlob,
        old(val).inner is DataValue,
        old(val).inner->DataValue_0.size <= u64::MAX - 16,
        blob_range(ty_with_id(target.tys@, old(val).comm.ty_id)).0 <= blob_range(ty_with_id(target.tys@, old(val).comm.ty_id)).1 <= usize::MAX,
    ensures
        final(val).comm == old(val).comm,
        final(val).inner is DataValue,
        ({
            let o = old(val).inner->DataValue_0;
            let n = final(val).inner->DataValue_0;
            let r = blob_range(ty_with_id(target.tys@, old(val).comm.ty_id));
            &&& n.comm == o.comm
            &&& if o.comm.dir == Dir::Out {
                n.data@ == o.data@ && exists|m: int| 0 <= m <= o.size + 16 && n.size == clamp(m, r.0 as int, r.1 as int)
            } else {
                &&& n.size == o.size
                &&& o.data@.len() <= r.1 ==> n.data@.len() <= r.1
                &&& exists|m: Seq<u8>|
                    #[trigger] blob_steps(o.data@, m, r, 128) && (n.data@ == m || length_fixed(m, n.data@, r))
            }
        }),
{
    let ty = lookup_ty(target, val.comm.ty_id);
    let r = match ty {
        Type::BufferBlob(t) => match t.range {
            Some(r) => r,
            None => (0, MAX_BLOB_LEN),
        },
        _ => (0, MAX_BLOB_LEN),
    };
    match &mut val.inner {
        ValueKindInner::DataValue(d) => {
            if d.comm.dir == Dir::Out {
                d.size = mutate_blob_len(rng, d.size, r);
            } else {
                do_mutate_blob(rng, &mut d.data, r);
            }
        },
        _ => {},
    }
}

} // verus!

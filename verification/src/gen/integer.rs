//! Generation of integer values: constants, plain integers, lengths,
//! checksums, per-process values and flags.
use crate::gen::{choose_weighted, count_le, weights_ok};
use crate::rng::{rand_bool, rand_in_range, rand_index, rand_ratio, rand_u64};
use crate::ty::integer::{bit_size_fits, spec_bit_size, IntType};
use crate::ty::{Dir, Type};
use crate::value::{IntegerValue, Value, ValueCommon, ValueKindInner};
use rand::rngs::SmallRng;
use vstd::prelude::*;

verus! {

/// The magic 32-bit values special integers are drawn from.
pub const MAGIC32: [u64; 24] = [
    0,
    1,
    16,
    32,
    64,
    100,
    127,
    128,
    255,
    256,
    512,
    1000,
    1024,
    4096,
    32767,
    32768,
    65407,
    65535,
    65536,
    100663045,
    2147483647,
    2147483648,
    4194304250,
    4294934527,
];

/// Number of entries of the 64-bit magic table.
pub const MAGIC64_LEN: usize = 576;

/// Entry `i` of the 64-bit magic table. The table is filled row by row
/// with `(MAGIC32[i] << 32) | MAGIC32[j]`, but the column counter is never
/// reset, so only the first row (`MAGIC32[0]` is 0, giving `MAGIC32[j]`) is
/// filled and every other entry is 0.
pub open spec fn magic64(i: int) -> u64 {
    if 0 <= i < 24 {
        MAGIC32[i]
    } else {
        0
    }
}

/// Entry `i` of the 64-bit magic table.
pub fn magic_at(i: usize) -> (r: u64)
    requires
        i < MAGIC64_LEN,
    ensures
        r == magic64(i as int),
{
    if i < 24 {
        MAGIC32[i]
    } else {
        0
    }
}

/// A value drawn from the 64-bit magic table: the entry at a random index
/// (see `magic_at`).
pub fn special_int(rng: &mut SmallRng) -> (r: u64)
    ensures
        exists|i: int| 0 <= i < MAGIC64_LEN && r == magic64(i),
{
    let i = rand_index(rng, MAGIC64_LEN);
    magic_at(i)
}

/// Any 64-bit value.
pub fn rand_int(rng: &mut SmallRng) -> (r: u64) {
    rand_u64(rng)
}

/// Upper bounds (exclusive) of the favored ranges.
pub const FAVOR: [u64; 5] = [16, 256, 4096, 65536, 2147483648];

/// Accumulated weights of the favored bounds, smallest first.
pub const FAVOR_WEIGHTS: [u64; 5] = [50, 70, 85, 95, 100];

/// The favored bound of index `idx`.
pub fn favor_bound(idx: usize) -> (r: u64)
    requires
        idx < 5,
    ensures
        r == FAVOR[idx as int],
        r > 0,
{
    FAVOR[idx]
}

/// A value below one of the favored bounds, the smaller bounds more likely:
/// a bound is chosen by `FAVOR_WEIGHTS` (see `favor_bound`), then a value
/// below it.
pub fn favor_range(rng: &mut SmallRng) -> (r: u64)
    ensures
        exists|i: int| 0 <= i < 5 && r < FAVOR[i],
{
    let weights = FAVOR_WEIGHTS;
    proof {
        assert(weights_ok(weights@));
    }
    let idx = choose_weighted(rng, &weights);
    let bound = favor_bound(idx);
    rand_in_range(rng, 0, bound - 1)
}

/// `val` masked with the top bit of a `bit_sz`-bit width.
pub open spec fn top_bit_spec(val: u64, bit_sz: u64) -> u64 {
    val & (1u64 << ((bit_sz - 1) as u64))
}

/// `val` masked with the top bit of a `bit_sz`-bit width: so 0 or that bit.
pub fn top_bit_of(val: u64, bit_sz: u64) -> (r: u64)
    requires
        1 <= bit_sz <= 64,
    ensures
        r == top_bit_spec(val, bit_sz),
        r == 0 || r == (1u64 << ((bit_sz - 1) as u64)),
{
    let mask = 1u64 << (bit_sz - 1);
    let r = val & mask;
    assert(r == 0 || r == mask) by (bit_vector)
        requires
            mask == 1u64 << ((bit_sz - 1) as u64),
            r == val & mask,
            1 <= bit_sz <= 64,;
    r
}

/// Accumulated weights of the generators of `rand_int_in_bit_sz`: favored,
/// special, any value.
pub const BIT_SZ_WEIGHTS: [u64; 3] = [60, 90, 100];

/// A favored, special or random value (chosen by `BIT_SZ_WEIGHTS`) masked
/// with the top bit of a `bit_sz`-bit width (see `top_bit_of`).
pub fn rand_int_in_bit_sz(rng: &mut SmallRng, bit_sz: u64) -> (r: u64)
    requires
        1 <= bit_sz <= 64,
    ensures
        exists|val: u64| r == #[trigger] top_bit_spec(val, bit_sz),
        r == 0 || r == (1u64 << ((bit_sz - 1) as u64)),
{
    let weights = BIT_SZ_WEIGHTS;
    proof {
        assert(weights_ok(weights@));
    }
    let idx = choose_weighted(rng, &weights);
    let val = if idx == 0 {
        favor_range(rng)
    } else if idx == 1 {
        special_int(rng)
    } else {
        rand_int(rng)
    };
    top_bit_of(val, bit_sz)
}

/// `(start + k * align) mod 2^64` for some `k` at most
/// `((end - start) mod 2^64) / align`.
pub open spec fn aligned_in(start: u64, end: u64, align: u64, r: u64) -> bool {
    exists|k: int|
        0 <= k <= ((end - start) % 0x1_0000_0000_0000_0000) / (align as int) && r == #[trigger] aligned_step(
            start,
            k,
            align,
        )
}

/// `(start + k * align) mod 2^64`.
pub open spec fn aligned_step(start: u64, k: int, align: u64) -> int {
    (start + k * align) % 0x1_0000_0000_0000_0000
}

/// A value of the inclusive range `(start, end)`; with an alignment, the
/// start plus a multiple of it (a range of all values is narrowed to
/// `bit_sz` bits first).
pub fn rand_int_range(rng: &mut SmallRng, range: (u64, u64), align: u64, bit_sz: u64) -> (r: u64)
    requires
        align == 0 ==> range.0 <= range.1,
        align != 0 && range.0 == 0 && range.1 == u64::MAX ==> 1 <= bit_sz < 64,
    ensures
        align == 0 ==> range.0 <= r <= range.1,
        align != 0 ==> {
            let end = if range.0 == 0 && range.1 == u64::MAX {
                ((1u64 << bit_sz) - 1) as u64
            } else {
                range.1
            };
            aligned_in(range.0, end, align, r)
        },
{
    if align != 0 {
        let mut end = range.1;
        if range.0 == 0 && range.1 == u64::MAX {
            let top = 1u64 << bit_sz;
            assert(top >= 1) by (bit_vector)
                requires
                    top == 1u64 << bit_sz,
                    1 <= bit_sz < 64,;
            end = top - 1;
        }
        let span = end.wrapping_sub(range.0);
        let end_align = span / align;
        let k = rand_in_range(rng, 0, end_align);
        assert(k * align <= span) by (nonlinear_arith)
            requires
                k <= end_align,
                end_align == span / align,
                align > 0,;
        let r = range.0.wrapping_add(k * align);
        assert(span == (end - range.0) % 0x1_0000_0000_0000_0000);
        assert(r == aligned_step(range.0, k as int, align));
        r
    } else {
        rand_in_range(rng, range.0, range.1)
    }
}

/// The random flag value: `v` when it is kept, else 0.
pub fn flag_value_from(keep: bool, v: u64) -> (r: u64)
    ensures
        r == if keep {
            v
        } else {
            0
        },
{
    if keep {
        v
    } else {
        0
    }
}

/// A value with probability 3/5 random, else 0 (see `flag_value_from`).
pub fn flag_rand_val(rng: &mut SmallRng) -> (r: u64) {
    let keep = rand_ratio(rng, 3, 5);
    let v = if keep {
        rand_u64(rng)
    } else {
        0
    };
    flag_value_from(keep, v)
}

/// `base` increased by `k`, or the largest value if that is past it.
pub open spec fn inc_spec(base: u64, k: u64) -> u64 {
    if base + k > u64::MAX {
        u64::MAX
    } else {
        (base + k) as u64
    }
}

/// `base` increased by `k` (never past the largest value).
pub fn inc_by(base: u64, k: u64) -> (r: u64)
    ensures
        r == inc_spec(base, k),
{
    if k > u64::MAX - base {
        u64::MAX
    } else {
        base + k
    }
}

/// `base` increased by one for each of a run of random `true` draws (see
/// `inc_by`); the draws stop at the first `false`, or once the largest
/// value is reached.
pub fn rand_inc(rng: &mut SmallRng, base: u64) -> (r: u64)
    ensures
        exists|k: u64| r == inc_spec(base, k),
        r >= base,
{
    let _ = rand_bool(rng);
    let mut k: u64 = 0;
    while k < u64::MAX - base && rand_bool(rng)
        invariant
            k <= u64::MAX - base,
        decreases u64::MAX - base - k,
    {
        k = k + 1;
    }
    inc_by(base, k)
}

/// A flag value, or it shifted left or right by one bit.
pub open spec fn flag_variant(vals: Seq<u64>, f: u64) -> bool {
    exists|i: int|
        0 <= i < vals.len() && (f == vals[i] || f == vals[i] << 1u64 || f == vals[i] >> 1u64)
}

/// Exclusive or of `start` and the values of `s`.
pub open spec fn xor_all(start: u64, s: Seq<u64>) -> u64
    decreases s.len(),
{
    if s.len() == 0 {
        start
    } else {
        xor_all(start, s.drop_last()) ^ s.last()
    }
}

/// Composes flags: starting from `base` (or from 0, with probability 1/10
/// when `base` is not 0), exclusive-ors up to 10 randomly chosen flags, each
/// shifted by one bit with probability 1/20.
pub fn flags_bits_composition(rng: &mut SmallRng, vals: &[u64], base: u64) -> (r: u64)
    ensures
        flags_composed(vals@, base, r),
{
    let mut base = base;
    if base != 0 && rand_ratio(rng, 1, 10) {
        base = 0;
    }
    let ghost start = base;
    let ghost mut chosen: Seq<u64> = Seq::empty();
    let max: usize = if vals.len() < 10 {
        vals.len()
    } else {
        10
    };
    let mut tries: usize = 0;
    loop
        invariant
            tries <= max,
            max <= 10,
            max <= vals@.len(),
            chosen.len() == tries,
            forall|i: int| 0 <= i < chosen.len() ==> flag_variant(vals@, #[trigger] chosen[i]),
            base == xor_all(start, chosen),
        decreases max - tries,
    {
        if tries >= max {
            break;
        }
        if base != 0 && !rand_ratio(rng, 2, 3) {
            break;
        }
        let i = rand_index(rng, vals.len());
        let mut flag = vals[i];
        if rand_ratio(rng, 1, 20) {
            if rand_bool(rng) {
                flag = flag << 1u64;
            } else {
                flag = flag >> 1u64;
            }
        }
        proof {
            assert(flag_variant(vals@, flag));
            let prev = chosen;
            chosen = chosen.push(flag);
            assert(chosen.drop_last() =~= prev);
        }
        base = base ^ flag;
        tries = tries + 1;
    }
    base
}

/// How a flags value is made.
#[derive(Debug, Clone, Copy, PartialEq, Eq, Structural)]
pub enum FlagChoice {
    /// A random value (see `flag_rand_val`).
    RandomValue,
    /// `base` increased (see `rand_inc`).
    Increment,
    /// One of the flag values.
    OneValue,
    /// A composition of flags (see `flags_bits_composition`).
    Composition,
}

/// The choice for a bit-mask type: a random value when the 1-in-100 draw
/// `hit` came out, else a composition.
pub open spec fn bitmask_choice_spec(hit: bool) -> FlagChoice {
    if hit {
        FlagChoice::RandomValue
    } else {
        FlagChoice::Composition
    }
}

/// See `bitmask_choice_spec`.
pub fn bitmask_choice(hit: bool) -> (r: FlagChoice)
    ensures
        r == bitmask_choice_spec(hit),
{
    if hit {
        FlagChoice::RandomValue
    } else {
        FlagChoice::Composition
    }
}

/// The choice for a type that is no bit mask, from a draw `n` below 100:
/// 0 a random value; 1 or 2 an increment when `base` is not 0; 3 to 97 one
/// of the values; else a composition.
pub open spec fn non_bitmask_choice_spec(n: u64, base: u64) -> FlagChoice {
    if n == 0 {
        FlagChoice::RandomValue
    } else if n <= 2 && base != 0 {
        FlagChoice::Increment
    } else if 3 <= n <= 97 {
        FlagChoice::OneValue
    } else {
        FlagChoice::Composition
    }
}

/// See `non_bitmask_choice_spec`.
pub fn non_bitmask_choice(n: u64, base: u64) -> (r: FlagChoice)
    ensures
        r == non_bitmask_choice_spec(n, base),
{
    if n == 0 {
        FlagChoice::RandomValue
    } else if n <= 2 && base != 0 {
        FlagChoice::Increment
    } else if 3 <= n && n <= 97 {
        FlagChoice::OneValue
    } else {
        FlagChoice::Composition
    }
}

/// `r` is a composition of the flags `vals` from `base` (see
/// `flags_bits_composition`).
pub open spec fn flags_composed(vals: Seq<u64>, base: u64, r: u64) -> bool {
    exists|start: u64, s: Seq<u64>|
        (start == base || start == 0) && s.len() <= 10 && s.len() <= vals.len() && (forall|i: int|
            0 <= i < s.len() ==> flag_variant(vals, #[trigger] s[i])) && r == xor_all(start, s)
}

/// What a flags value made by `c` can be.
pub open spec fn flag_made_by(c: FlagChoice, vals: Seq<u64>, base: u64, r: u64) -> bool {
    match c {
        FlagChoice::RandomValue => true,
        FlagChoice::Increment => exists|k: u64| r == inc_spec(base, k),
        FlagChoice::OneValue => exists|i: int| 0 <= i < vals.len() && r == vals[i],
        FlagChoice::Composition => flags_composed(vals, base, r),
    }
}

/// Flags of a bit-mask type: with probability 1/100 a random value, else a
/// composition of flags (see `bitmask_choice`).
pub fn gen_flags_bitmask(rng: &mut SmallRng, vals: &[u64], base: u64) -> (r: u64)
    ensures
        exists|hit: bool| flag_made_by(bitmask_choice_spec(hit), vals@, base, r),
{
    let hit = rand_ratio(rng, 1, 100);
    match bitmask_choice(hit) {
        FlagChoice::RandomValue => flag_rand_val(rng),
        _ => flags_bits_composition(rng, vals, base),
    }
}

/// Flags of a type that is no bit mask: mostly one of the values; else a
/// random value, an increment of `base`, or a composition of flags (see
/// `non_bitmask_choice`).
pub fn gen_flags_non_bitmask(rng: &mut SmallRng, vals: &[u64], base: u64) -> (r: u64)
    requires
        vals@.len() > 0,
    ensures
        exists|n: u64| n < 100 && flag_made_by(non_bitmask_choice_spec(n, base), vals@, base, r),
{
    let n = rand_in_range(rng, 0, 99);
    match non_bitmask_choice(n, base) {
        FlagChoice::RandomValue => flag_rand_val(rng),
        FlagChoice::Increment => rand_inc(rng, base),
        FlagChoice::OneValue => {
            let i = rand_index(rng, vals.len());
            vals[i]
        },
        FlagChoice::Composition => flags_bits_composition(rng, vals, base),
    }
}

/// The integer value of type `ty` and direction `dir` holding `val`.
pub open spec fn int_value(ty: Type, dir: Dir, val: u64) -> Value {
    let c = ValueCommon { ty_id: ty.spec_comm().id, dir };
    Value { comm: c, inner: ValueKindInner::IntegerValue(IntegerValue { comm: c, val }) }
}

fn make_int(ty: &Type, dir: Dir, val: u64) -> (r: Value)
    ensures
        r == int_value(*ty, dir, val),
{
    Value::from_int(IntegerValue::new(ty.id(), dir, val))
}

/// A constant: its value.
pub fn gen_const(ty: &Type, dir: Dir) -> (r: Value)
    requires
        ty is Const,
    ensures
        r == int_value(*ty, dir, ty->Const_0.const_val),
{
    let t = ty.checked_as_const();
    make_int(ty, dir, t.const_val)
}

/// What a generated plain integer can be: a value of its range (aligned
/// when the type has an alignment; a full 64-bit range stands for the
/// type's bit width), or 0 or the top bit of its bit width.
pub open spec fn int_generated(t: IntType, v: u64) -> bool {
    let bit_sz = spec_bit_size(t.int_fmt, t.comm.size);
    ||| v == 0
    ||| v == (1u64 << ((bit_sz - 1) as u64))
    ||| t.range matches Some(range) && if t.align == 0 {
        range.0 <= v <= range.1
    } else {
        let end = if range.0 == 0 && range.1 == u64::MAX {
            ((1u64 << bit_sz) - 1) as u64
        } else {
            range.1
        };
        aligned_in(range.0, end, t.align, v)
    }
}

/// A plain integer: with a range, with probability 99/100 a value of the
/// range (see `rand_int_range`); else a value of its bit size (see
/// `rand_int_in_bit_sz`).
pub fn gen_int(rng: &mut SmallRng, ty: &Type, dir: Dir) -> (r: Value)
    requires
        ty is Int,
        bit_size_fits(ty->Int_0.int_fmt, ty->Int_0.comm.size),
        1 <= spec_bit_size(ty->Int_0.int_fmt, ty->Int_0.comm.size) <= 64,
        ty->Int_0.range matches Some((s, e)) ==> (ty->Int_0.align == 0 ==> s <= e) && (ty->Int_0.align != 0 && s == 0
            && e == u64::MAX ==> spec_bit_size(ty->Int_0.int_fmt, ty->Int_0.comm.size) < 64),
    ensures
        exists|v: u64| r == int_value(*ty, dir, v) && int_generated(ty->Int_0, v),
{
    let t = ty.checked_as_int();
    let bit_sz = t.bit_size();
    match t.range {
        Some(range) => {
            if rand_ratio(rng, 99, 100) {
                let val = rand_int_range(rng, range, t.align, bit_sz);
                return make_int(ty, dir, val);
            }
        },
        None => {},
    }
    let val = rand_int_in_bit_sz(rng, bit_sz);
    make_int(ty, dir, val)
}

/// A length: 0, computed once the whole call is generated.
pub fn gen_len(ty: &Type, dir: Dir) -> (r: Value)
    ensures
        r == int_value(*ty, dir, 0),
{
    make_int(ty, dir, 0)
}

/// A checksum: any value (the executor computes it).
pub fn gen_csum(rng: &mut SmallRng, ty: &Type, dir: Dir) -> (r: Value)
    ensures
        exists|v: u64| r == int_value(*ty, dir, v),
{
    let v = rand_u64(rng);
    make_int(ty, dir, v)
}

/// A per-process value: below the number of values per process.
pub fn gen_proc(rng: &mut SmallRng, ty: &Type, dir: Dir) -> (r: Value)
    requires
        ty is Proc,
        ty->Proc_0.values_per_proc > 0,
    ensures
        exists|v: u64| v < ty->Proc_0.values_per_proc && r == int_value(*ty, dir, v),
{
    let t = ty.checked_as_proc();
    let v = rand_in_range(rng, 0, t.values_per_proc - 1);
    make_int(ty, dir, v)
}

/// Flags: see `gen_flags_bitmask` and `gen_flags_non_bitmask`.
pub fn gen_flags(rng: &mut SmallRng, ty: &Type, dir: Dir) -> (r: Value)
    requires
        ty is Flags,
        !ty->Flags_0.bit_mask ==> ty->Flags_0.vals@.len() > 0,
    ensures
        exists|v: u64|
            r == int_value(*ty, dir, v) && (ty->Flags_0.bit_mask ==> exists|hit: bool|
                flag_made_by(bitmask_choice_spec(hit), ty->Flags_0.vals@, 0, v)) && (!ty->Flags_0.bit_mask
                ==> exists|n: u64| n < 100 && flag_made_by(non_bitmask_choice_spec(n, 0), ty->Flags_0.vals@, 0, v)),
{
    let t = ty.checked_as_flags();
    let v = if t.bit_mask {
        gen_flags_bitmask(rng, t.vals.as_slice(), 0)
    } else {
        gen_flags_non_bitmask(rng, t.vals.as_slice(), 0)
    };
    make_int(ty, dir, v)
}

} // verus!

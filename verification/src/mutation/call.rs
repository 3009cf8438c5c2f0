//! Which values to mutate: whether a value is mutable and how likely it is
//! to be picked (its priority).
use crate::gen::{choose_weighted, own_weight, weights_ok};
use crate::parse::ParsedCall;
use crate::size::{lookup_ty, ty_with_id, value_tys_known};
use rand::rngs::SmallRng;
use crate::target::{has_ty, Target};
use crate::ty::integer::{bit_size_fits, spec_bit_size, IntType};
use crate::ty::{Dir, Type, TypeKind};
use crate::value::{Value, ValueKindInner};
use vstd::prelude::*;

verus! {

/// Priority of a value never mutated.
pub const NEVER_MUTATE: u64 = 0;

/// Lowest priority of a mutable value.
pub const MIN_PRIO: u64 = 1;

/// Middle priority.
pub const MID_PRIO: u64 = 5;

/// Highest priority.
pub const MAX_PRIO: u64 = 10;

/// `floor(log2(n))` for `n >= 1`.
pub open spec fn floor_log2(n: nat) -> nat
    decreases n,
{
    if n <= 1 {
        0
    } else {
        1 + floor_log2(n / 2)
    }
}

fn floor_log2_exec(n: u64) -> (r: u64)
    requires
        n >= 1,
    ensures
        r == floor_log2(n as nat),
        r < 64,
{
    proof {
        lemma_floor_log2_bound(n as nat, 64);
    }
    let mut x = n;
    let mut r: u64 = 0;
    while x > 1
        invariant
            x >= 1,
            r + floor_log2(x as nat) == floor_log2(n as nat),
            floor_log2(n as nat) < 64,
        decreases x,
    {
        x = x / 2;
        r = r + 1;
    }
    r
}

/// `2^k`.
pub open spec fn p2(k: nat) -> nat
    decreases k,
{
    if k == 0 {
        1
    } else {
        2 * p2((k - 1) as nat)
    }
}

proof fn lemma_floor_log2_bound(n: nat, k: nat)
    requires
        1 <= k <= 64,
        k == 64 ==> n < 0x1_0000_0000_0000_0000,
        k < 64 ==> n < p2(k),
    ensures
        floor_log2(n) < k,
    decreases k,
{
    if k == 64 {
        reveal_with_fuel(p2, 65);
        assert(p2(63) == 0x8000_0000_0000_0000);
    }
    if n > 1 && k > 1 {
        if k == 64 {
            reveal_with_fuel(p2, 64);
        }
        lemma_floor_log2_bound(n / 2, (k - 1) as nat);
    }
}

/// Priority of a choice among `size` values: none for no value, the lowest
/// for one, else `size / 3 + 4` up to 9.
pub open spec fn spec_range_size_prio(size: u64) -> u64 {
    if size == 0 {
        NEVER_MUTATE
    } else if size == 1 {
        MIN_PRIO
    } else if size / 3 + 4 < 9 {
        (size / 3 + 4) as u64
    } else {
        9
    }
}

/// See `spec_range_size_prio`.
pub fn range_size_prio(size: u64) -> (r: u64)
    ensures
        r == spec_range_size_prio(size),
{
    if size == 0 {
        NEVER_MUTATE
    } else if size == 1 {
        MIN_PRIO
    } else if size / 3 + 4 < 9 {
        size / 3 + 4
    } else {
        9
    }
}

/// Number of values a plain integer type can take: its range, or the
/// number of aligned values in it (the whole `bit_sz`-bit space for an
/// unrestricted range), all with wrapping arithmetic.
pub open spec fn int_range_size(start: u64, end: u64, align: u64, bit_sz: u64) -> u64 {
    if align != 0 {
        if start == 0 && end == u64::MAX {
            ((1u64 << (((bit_sz as u32) % 64) as u64)).wrapping_sub(1) / align).wrapping_add(1)
        } else {
            (end.wrapping_sub(start) / align).wrapping_add(1)
        }
    } else {
        end.wrapping_sub(start).wrapping_add(1)
    }
}

/// Priority of a plain integer: small ranges by their size, ranges of up
/// to 256 values the highest, else by the width (`floor(log2(bits)) + 1`).
pub open spec fn spec_int_prio(t: IntType) -> u64 {
    let bit_sz = spec_bit_size(t.int_fmt, t.comm.size);
    let plain: u64 = if bit_sz == 0 {
        1
    } else {
        (floor_log2(bit_sz as nat) + 1) as u64
    };
    match t.range {
        None => plain,
        Some((s, e)) => {
            let size = int_range_size(s, e, t.align, bit_sz);
            if size <= 15 {
                spec_range_size_prio(size)
            } else if size <= 256 {
                MAX_PRIO
            } else {
                plain
            }
        },
    }
}

/// See `spec_int_prio`.
pub fn int_prio(ty: &Type) -> (r: u64)
    requires
        ty is Int,
        bit_size_fits(ty->Int_0.int_fmt, ty->Int_0.comm.size),
        spec_bit_size(ty->Int_0.int_fmt, ty->Int_0.comm.size) <= 0x20_0000_0000_0000,
    ensures
        r == spec_int_prio(ty->Int_0),
{
    let t = ty.checked_as_int();
    let bit_sz = t.bit_size();
    let plain: u64 = if bit_sz == 0 {
        1
    } else {
        floor_log2_exec(bit_sz) + 1
    };
    assert(plain == (if bit_sz == 0 { 1 } else { (floor_log2(bit_sz as nat) + 1) as u64 }));
    match t.range {
        None => plain,
        Some((start, end)) => {
            let size = if t.align != 0 {
                if start == 0 && end == u64::MAX {
                    let sh = (bit_sz as u32) % 64;
                    let top = (1u64 << (sh as u64)).wrapping_sub(1);
                    (top / t.align).wrapping_add(1)
                } else {
                    (end.wrapping_sub(start) / t.align).wrapping_add(1)
                }
            } else {
                end.wrapping_sub(start).wrapping_add(1)
            };
            if size <= 15 {
                range_size_prio(size)
            } else if size <= 256 {
                MAX_PRIO
            } else {
                plain
            }
        },
    }
}

/// Priority of flags: by the number of values, one more for a bit mask.
pub fn flags_prio(ty: &Type) -> (r: u64)
    requires
        ty is Flags,
    ensures
        r == spec_range_size_prio(ty->Flags_0.vals@.len() as u64) + (if ty->Flags_0.bit_mask {
            1int
        } else {
            0int
        }),
{
    let t = ty.checked_as_flags();
    let mut p = range_size_prio(t.vals.len() as u64);
    if t.bit_mask {
        p = p + 1;
    }
    p
}

/// Priority of a blob or file name: none for an output of fixed size,
/// else 8.
pub fn buffer_prio(ty: &Type, dir: Dir) -> (r: u64)
    ensures
        r == (if dir == Dir::Out && !ty.spec_comm().varlen {
            NEVER_MUTATE
        } else {
            8
        }),
{
    if dir == Dir::Out && !ty.varlen() {
        NEVER_MUTATE
    } else {
        8
    }
}

/// Priority of a string: none for an output of fixed size or a string with
/// exactly one possible value, else 8.
pub fn buffer_string_prio(ty: &Type, dir: Dir) -> (r: u64)
    requires
        ty is BufferString,
    ensures
        r == (if (dir == Dir::Out && !ty.spec_comm().varlen) || ty->BufferString_0.vals@.len() == 1 {
            NEVER_MUTATE
        } else {
            8
        }),
{
    let t = ty.checked_as_buffer_string();
    if (dir == Dir::Out && !t.comm.varlen) || t.vals.len() == 1 {
        NEVER_MUTATE
    } else {
        8
    }
}

/// Priority of an array: none for a fixed length, else the highest.
pub fn array_prio(ty: &Type) -> (r: u64)
    requires
        ty is Array,
    ensures
        r == (if ty->Array_0.spec_fixed_len() {
            NEVER_MUTATE
        } else {
            MAX_PRIO
        }),
{
    let t = ty.checked_as_array();
    if t.fixed_len() {
        NEVER_MUTATE
    } else {
        MAX_PRIO
    }
}

/// Priority of a union: none with a single field, else the highest.
pub fn union_prio(ty: &Type) -> (r: u64)
    requires
        ty is Union,
    ensures
        r == (if ty->Union_0.fields@.len() == 1 {
            NEVER_MUTATE
        } else {
            MAX_PRIO
        }),
{
    let t = ty.checked_as_union();
    if t.fields.len() == 1 {
        NEVER_MUTATE
    } else {
        MAX_PRIO
    }
}

/// Priority of a type in a direction (see `type_prio`).
pub open spec fn spec_type_prio(ty: Type, dir: Dir) -> u64 {
    match ty {
        Type::Res(_) | Type::Proc(_) | Type::Vma(_) => MID_PRIO,
        Type::Const(_) | Type::Len(_) | Type::Csum(_) | Type::Struct(_) => NEVER_MUTATE,
        Type::Int(t) => spec_int_prio(t),
        Type::Flags(t) => (spec_range_size_prio(t.vals@.len() as u64) + (if t.bit_mask {
            1int
        } else {
            0int
        })) as u64,
        Type::BufferBlob(_) | Type::BufferFilename(_) => if dir == Dir::Out && !ty.spec_comm().varlen {
            NEVER_MUTATE
        } else {
            8
        },
        Type::BufferString(t) => if (dir == Dir::Out && !ty.spec_comm().varlen) || t.vals@.len() == 1 {
            NEVER_MUTATE
        } else {
            8
        },
        Type::Array(t) => if t.spec_fixed_len() {
            NEVER_MUTATE
        } else {
            MAX_PRIO
        },
        Type::Ptr(_) => MIN_PRIO,
        Type::Union(t) => if t.fields@.len() == 1 {
            NEVER_MUTATE
        } else {
            MAX_PRIO
        },
    }
}

/// Priority of a type in a direction: see the priority of each kind;
/// constants, lengths, checksums and structs are never mutated, procs,
/// resources and vmas get the middle priority and pointers the lowest.
pub fn type_prio(ty: &Type, dir: Dir) -> (r: u64)
    requires
        ty is Int ==> bit_size_fits(ty->Int_0.int_fmt, ty->Int_0.comm.size) && spec_bit_size(
            ty->Int_0.int_fmt,
            ty->Int_0.comm.size,
        ) <= 0x20_0000_0000_0000,
    ensures
        r == spec_type_prio(*ty, dir),
{
    match ty {
        Type::Res(_) => MID_PRIO,
        Type::Const(_) => NEVER_MUTATE,
        Type::Int(_) => int_prio(ty),
        Type::Flags(_) => flags_prio(ty),
        Type::Len(_) => NEVER_MUTATE,
        Type::Proc(_) => MID_PRIO,
        Type::Csum(_) => NEVER_MUTATE,
        Type::Vma(_) => MID_PRIO,
        Type::BufferBlob(_) => buffer_prio(ty, dir),
        Type::BufferString(_) => buffer_string_prio(ty, dir),
        Type::BufferFilename(_) => buffer_prio(ty, dir),
        Type::Array(_) => array_prio(ty),
        Type::Ptr(_) => MIN_PRIO,
        Type::Struct(_) => NEVER_MUTATE,
        Type::Union(_) => union_prio(ty),
    }
}

/// Whether a value of this type and direction is mutable: a type of fixed
/// size 0 is not; an output value only when it is a buffer of variable
/// length or an array of variable length; another value unless it is a
/// constant, a length, a checksum or a struct (whose fields are mutated
/// instead).
pub open spec fn spec_ty_mutable(ty: Type, dir: Dir) -> bool {
    if !ty.spec_comm().varlen && ty.spec_comm().size == 0 {
        false
    } else if dir == Dir::Out {
        match ty {
            Type::BufferString(_) | Type::BufferBlob(_) | Type::BufferFilename(_) => ty.spec_comm().varlen,
            Type::Array(t) => !t.spec_fixed_len(),
            _ => false,
        }
    } else {
        !(ty is Const || ty is Len || ty is Csum || ty is Struct)
    }
}

/// See `spec_ty_mutable`.
pub fn ty_mutable(ty: &Type, dir: Dir) -> (r: bool)
    ensures
        r == spec_ty_mutable(*ty, dir),
{
    if !ty.varlen() && ty.size() == 0 {
        return false;
    }
    if dir == Dir::Out {
        match ty {
            Type::BufferString(_) | Type::BufferBlob(_) | Type::BufferFilename(_) => ty.varlen(),
            Type::Array(t) => !t.fixed_len(),
            _ => false,
        }
    } else {
        match ty.kind() {
            TypeKind::Const | TypeKind::Len | TypeKind::Csum | TypeKind::Struct => false,
            _ => true,
        }
    }
}

/// Whether a value is mutable (see `spec_ty_mutable`).
pub fn val_mutable(target: &Target, val: &Value) -> (r: bool)
    requires
        target.wf(),
        has_ty(target.tys@, val.comm.ty_id),
    ensures
        r == spec_ty_mutable(ty_with_id(target.tys@, val.comm.ty_id), val.comm.dir),
{
    let ty = lookup_ty(target, val.comm.ty_id);
    ty_mutable(ty, val.comm.dir)
}

/// Priority of a value: none when it is not mutable, else that of its
/// type.
pub fn val_prio(target: &Target, val: &Value) -> (r: u64)
    requires
        target.wf(),
        has_ty(target.tys@, val.comm.ty_id),
        ty_with_id(target.tys@, val.comm.ty_id) matches Type::Int(t) ==> bit_size_fits(t.int_fmt, t.comm.size)
            && spec_bit_size(t.int_fmt, t.comm.size) <= 0x20_0000_0000_0000,
    ensures
        r == (if spec_ty_mutable(ty_with_id(target.tys@, val.comm.ty_id), val.comm.dir) {
            spec_type_prio(ty_with_id(target.tys@, val.comm.ty_id), val.comm.dir)
        } else {
            NEVER_MUTATE
        }),
{
    let ty = lookup_ty(target, val.comm.ty_id);
    if !ty_mutable(ty, val.comm.dir) {
        NEVER_MUTATE
    } else {
        type_prio(ty, val.comm.dir)
    }
}

/// Some resource in the tree of `v` has a direction other than `exclude`.
pub open spec fn has_res_not(v: Value, exclude: Dir) -> bool
    decreases v,
{
    match v.inner {
        ValueKindInner::ResValue(r) => r.comm.dir != exclude,
        ValueKindInner::PtrValue(p) => match p.pointee {
            Some(b) => has_res_not(*b, exclude),
            None => false,
        },
        ValueKindInner::GroupValue(g) => exists|i: int| 0 <= i < g.inner@.len() && has_res_not(#[trigger] g.inner@[i], exclude),
        ValueKindInner::UnionValue(u) => has_res_not(*u.option, exclude),
        _ => false,
    }
}

/// Whether the tree of `v` holds a resource whose direction is not
/// `exclude_dir`.
pub fn contain_res(v: &Value, exclude_dir: Dir) -> (r: bool)
    ensures
        r == has_res_not(*v, exclude_dir),
    decreases *v,
{
    match &v.inner {
        ValueKindInner::ResValue(r) => r.comm.dir != exclude_dir,
        ValueKindInner::PtrValue(p) => match &p.pointee {
            Some(b) => {
                proof {
                    assert(decreases_to!(*v => **b));
                }
                contain_res(b, exclude_dir)
            },
            None => false,
        },
        ValueKindInner::GroupValue(g) => {
            let mut i: usize = 0;
            while i < g.inner.len()
                invariant
                    v.inner == ValueKindInner::GroupValue(*g),
                    i <= g.inner@.len(),
                    forall|j: int| 0 <= j < i ==> !has_res_not(#[trigger] g.inner@[j], exclude_dir),
                decreases g.inner.len() - i,
            {
                proof {
                    assert(decreases_to!(*v => g.inner@[i as int])) by {
                        assert(decreases_to!(*v => v.inner));
                        assert(decreases_to!(v.inner => *g));
                        assert(decreases_to!(*g => g.inner));
                        assert(decreases_to!(g.inner => g.inner@));
                        assert(decreases_to!(g.inner@ => g.inner@[i as int]));
                    }
                }
                if contain_res(&g.inner[i], exclude_dir) {
                    return true;
                }
                i = i + 1;
            }
            false
        },
        ValueKindInner::UnionValue(u) => {
            proof {
                assert(decreases_to!(*v => *u.option));
            }
            contain_res(&u.option, exclude_dir)
        },
        _ => false,
    }
}

/// Whether the tree of `v` holds a resource that is not only an input,
/// which mutation must leave in place.
pub fn contains_out_res(v: &Value) -> (r: bool)
    ensures
        r == has_res_not(*v, Dir::In),
{
    contain_res(v, Dir::In)
}

/// The integer types of `tys` have bit sizes whose priorities can be
/// computed.
pub open spec fn prio_types_ok(tys: Seq<Type>) -> bool {
    forall|j: int|
        0 <= j < tys.len() ==> ((#[trigger] tys[j]) matches Type::Int(t) ==> bit_size_fits(t.int_fmt, t.comm.size)
            && spec_bit_size(t.int_fmt, t.comm.size) <= 0x20_0000_0000_0000)
}

/// Priority of the value `v` itself (see `val_prio`).
pub open spec fn prio_of(tys: Seq<Type>, v: Value) -> nat {
    let ty = ty_with_id(tys, v.comm.ty_id);
    if spec_ty_mutable(ty, v.comm.dir) {
        spec_type_prio(ty, v.comm.dir) as nat
    } else {
        0
    }
}

/// Sum of the priorities of every value in the tree of `v`.
pub open spec fn tree_prio(tys: Seq<Type>, v: Value) -> nat
    decreases v, 1nat,
{
    prio_of(tys, v) + match v.inner {
        ValueKindInner::PtrValue(p) => match p.pointee {
            Some(b) => tree_prio(tys, *b),
            None => 0,
        },
        ValueKindInner::GroupValue(g) => trees_prio(tys, g.inner@),
        ValueKindInner::UnionValue(u) => tree_prio(tys, *u.option),
        _ => 0,
    }
}

/// Sum of the priorities of the trees of `vs`.
pub open spec fn trees_prio(tys: Seq<Type>, vs: Seq<Value>) -> nat
    decreases vs, 0nat,
{
    if vs.len() == 0 {
        0
    } else {
        trees_prio(tys, vs.drop_last()) + tree_prio(tys, vs.last())
    }
}

/// Priority of a call: the sum over its arguments and its result.
pub open spec fn call_prio(tys: Seq<Type>, c: ParsedCall) -> nat {
    trees_prio(tys, c.args@) + match c.ret {
        Some(r) => tree_prio(tys, r),
        None => 0,
    }
}

/// Accumulated priorities of the first `k` calls.
pub open spec fn calls_prio(tys: Seq<Type>, cs: Seq<ParsedCall>, k: nat) -> nat
    decreases k,
{
    if k == 0 || k > cs.len() {
        0
    } else {
        calls_prio(tys, cs, (k - 1) as nat) + call_prio(tys, cs[k - 1])
    }
}

proof fn lemma_trees_prio_take(tys: Seq<Type>, vs: Seq<Value>, i: int)
    requires
        0 <= i <= vs.len(),
    ensures
        trees_prio(tys, vs.take(i)) <= trees_prio(tys, vs),
    decreases vs.len(),
{
    if i < vs.len() {
        assert(vs.drop_last().take(i) =~= vs.take(i));
        lemma_trees_prio_take(tys, vs.drop_last(), i);
    } else {
        assert(vs.take(i) =~= vs);
    }
}

proof fn lemma_calls_prio_grows(tys: Seq<Type>, cs: Seq<ParsedCall>, j: nat, k: nat)
    requires
        j <= k <= cs.len(),
    ensures
        calls_prio(tys, cs, j) <= calls_prio(tys, cs, k),
    decreases k,
{
    if j < k {
        lemma_calls_prio_grows(tys, cs, j, (k - 1) as nat);
    }
}

/// Priority of the tree of `v` (see `tree_prio`).
pub fn value_tree_prio(target: &Target, v: &Value) -> (r: u64)
    requires
        target.wf(),
        prio_types_ok(target.tys@),
        value_tys_known(target.tys@, *v),
        tree_prio(target.tys@, *v) <= u64::MAX,
    ensures
        r == tree_prio(target.tys@, *v),
    decreases *v,
{
    proof {
        let j = choose|i: int| 0 <= i < target.tys@.len() && target.tys@[i].spec_comm().id == v.comm.ty_id;
        assert(prio_types_ok(target.tys@) ==> (target.tys@[j] matches Type::Int(t) ==> bit_size_fits(t.int_fmt, t.comm.size)
            && spec_bit_size(t.int_fmt, t.comm.size) <= 0x20_0000_0000_0000));
    }
    let here = val_prio(target, v);
    match &v.inner {
        ValueKindInner::PtrValue(p) => match &p.pointee {
            Some(b) => {
                proof {
                    assert(decreases_to!(*v => **b));
                }
                here + value_tree_prio(target, b)
            },
            None => here,
        },
        ValueKindInner::GroupValue(g) => {
            let ghost vs = g.inner@;
            let mut sum: u64 = here;
            let mut i: usize = 0;
            proof {
                assert(vs.take(0) =~= Seq::<Value>::empty());
            }
            while i < g.inner.len()
                invariant
                    target.wf(),
                    prio_types_ok(target.tys@),
                    v.inner == ValueKindInner::GroupValue(*g),
                    vs == g.inner@,
                    i <= vs.len(),
                    value_tys_known(target.tys@, *v),
                    here == prio_of(target.tys@, *v),
                    tree_prio(target.tys@, *v) == here + trees_prio(target.tys@, vs),
                    tree_prio(target.tys@, *v) <= u64::MAX,
                    sum == here + trees_prio(target.tys@, vs.take(i as int)),
                decreases g.inner.len() - i,
            {
                proof {
                    assert(decreases_to!(*v => vs[i as int])) by {
                        assert(decreases_to!(*v => v.inner));
                        assert(decreases_to!(v.inner => v.inner->GroupValue_0));
                        assert(decreases_to!(v.inner->GroupValue_0 => v.inner->GroupValue_0.inner));
                        assert(decreases_to!(v.inner->GroupValue_0.inner => vs));
                        assert(decreases_to!(vs => vs[i as int]));
                    }
                    let t1 = vs.take(i + 1);
                    assert(t1.drop_last() =~= vs.take(i as int));
                    assert(t1.last() == vs[i as int]);
                    lemma_trees_prio_take(target.tys@, vs, i + 1);
                    assert(value_tys_known(target.tys@, vs[i as int]));
                }
                let p = value_tree_prio(target, &g.inner[i]);
                sum = sum + p;
                i = i + 1;
            }
            proof {
                assert(vs.take(vs.len() as int) =~= vs);
            }
            sum
        },
        ValueKindInner::UnionValue(u) => {
            proof {
                assert(decreases_to!(*v => *u.option));
            }
            here + value_tree_prio(target, &u.option)
        },
        _ => here,
    }
}

/// The values of a call have types of the target.
pub open spec fn call_tys_known(tys: Seq<Type>, c: ParsedCall) -> bool {
    &&& forall|j: int| 0 <= j < c.args@.len() ==> value_tys_known(tys, #[trigger] c.args@[j])
    &&& (c.ret matches Some(r) ==> value_tys_known(tys, r))
}

/// Priority of a call (see `call_prio`).
pub fn call_priority(target: &Target, c: &ParsedCall) -> (r: u64)
    requires
        target.wf(),
        prio_types_ok(target.tys@),
        call_tys_known(target.tys@, *c),
        call_prio(target.tys@, *c) <= u64::MAX,
    ensures
        r == call_prio(target.tys@, *c),
{
    let ghost vs = c.args@;
    let mut sum: u64 = 0;
    let mut i: usize = 0;
    proof {
        assert(vs.take(0) =~= Seq::<Value>::empty());
    }
    while i < c.args.len()
        invariant
            target.wf(),
            prio_types_ok(target.tys@),
            call_tys_known(target.tys@, *c),
            vs == c.args@,
            i <= vs.len(),
            call_prio(target.tys@, *c) <= u64::MAX,
            sum == trees_prio(target.tys@, vs.take(i as int)),
        decreases c.args.len() - i,
    {
        proof {
            let t1 = vs.take(i + 1);
            assert(t1.drop_last() =~= vs.take(i as int));
            assert(t1.last() == vs[i as int]);
            lemma_trees_prio_take(target.tys@, vs, i + 1);
        }
        let p = value_tree_prio(target, &c.args[i]);
        sum = sum + p;
        i = i + 1;
    }
    proof {
        assert(vs.take(vs.len() as int) =~= vs);
    }
    match &c.ret {
        Some(r) => sum + value_tree_prio(target, r),
        None => sum,
    }
}

/// Picks a call to mutate, each with a chance in proportion to its
/// priority (see `call_prio`): none when no call has a value worth
/// mutating.
pub fn select_call(target: &Target, rng: &mut SmallRng, calls: &Vec<ParsedCall>) -> (r: Option<usize>)
    requires
        target.wf(),
        prio_types_ok(target.tys@),
        forall|c: int| 0 <= c < calls@.len() ==> call_tys_known(target.tys@, #[trigger] calls@[c]),
        calls_prio(target.tys@, calls@, calls@.len()) <= u64::MAX,
    ensures
        r is None <==> forall|c: int| 0 <= c < calls@.len() ==> call_prio(target.tys@, #[trigger] calls@[c]) == 0,
        r matches Some(i) ==> i < calls@.len() && call_prio(target.tys@, calls@[i as int]) > 0,
{
    let mut prios: Vec<u64> = Vec::new();
    let mut sum: u64 = 0;
    let mut i: usize = 0;
    while i < calls.len()
        invariant
            target.wf(),
            prio_types_ok(target.tys@),
            forall|c: int| 0 <= c < calls@.len() ==> call_tys_known(target.tys@, #[trigger] calls@[c]),
            calls_prio(target.tys@, calls@, calls@.len()) <= u64::MAX,
            i <= calls@.len(),
            prios@.len() == i,
            sum == calls_prio(target.tys@, calls@, i as nat),
            forall|k: int| 0 <= k < i ==> prios@[k] == calls_prio(target.tys@, calls@, (k + 1) as nat),
        decreases calls.len() - i,
    {
        proof {
            lemma_calls_prio_grows(target.tys@, calls@, (i + 1) as nat, calls@.len());
        }
        let p = call_priority(target, &calls[i]);
        sum = sum + p;
        prios.push(sum);
        i = i + 1;
    }
    if sum == 0 {
        proof {
            assert forall|c: int| 0 <= c < calls@.len() implies call_prio(target.tys@, #[trigger] calls@[c]) == 0 by {
                lemma_calls_prio_grows(target.tys@, calls@, (c + 1) as nat, calls@.len());
            }
        }
        return None;
    }
    proof {
        assert forall|a: int, b: int| 0 <= a <= b < prios@.len() implies prios@[a] <= prios@[b] by {
            lemma_calls_prio_grows(target.tys@, calls@, (a + 1) as nat, (b + 1) as nat);
        }
        assert(weights_ok(prios@));
    }
    let idx = choose_weighted(rng, prios.as_slice());
    proof {
        assert(own_weight(prios@, idx as int) > 0);
        if idx == 0 {
            assert(calls_prio(target.tys@, calls@, 0) == 0);
        }
        assert(call_prio(target.tys@, calls@[idx as int]) == own_weight(prios@, idx as int));
    }
    Some(idx)
}

} // verus!

//! A dummy allocator used for address allocation for ptr value without actual mem allocation.
use crate::hashed::{u64_items, u64_set_insert, u64_set_new};
use ahash::AHashSet;
use vstd::prelude::*;

verus! {

pub type MemAddress = u64;

pub type MemSize = u64;

/// Allocation granule, in bytes.
pub const ALLOC_GRANULE: u64 = 64;

pub const DEFAULT_MEM_SIZE: u64 = 16 << 20;

} // verus!

verus! {

/// Largest memory size whose granule-rounded size still fits in `isize`.
pub const MAX_MEM_SIZE: u64 = 0x7fff_ffff_ffff_ffc0;

/// Upper bound of `memory size + alignment` accepted by `alloc`.
pub const ADDR_SPACE_LIMIT: u64 = 0x8000_0000_0000_0000;

/// `v` rounded up to the next multiple of `a`.
pub open spec fn round_up(v: int, a: int) -> int {
    if v % a == 0 {
        v
    } else {
        v - v % a + a
    }
}

proof fn lemma_round_up_aligned(v: int, a: int)
    requires
        a > 0,
        v >= 0,
    ensures
        round_up(v, a) % a == 0,
        v <= round_up(v, a) < v + a,
{
    vstd::arithmetic::div_mod::lemma_fundamental_div_mod(v, a);
    vstd::arithmetic::div_mod::lemma_mod_bound(v, a);
    if v % a != 0 {
        vstd::arithmetic::div_mod::lemma_mod_multiples_basic(v / a + 1, a);
        assert((v / a + 1) * a == a * (v / a) + a) by (nonlinear_arith);
    }
}

/// Alignment actually used for an allocation request: at least the granule.
pub open spec fn alloc_align(align: u64) -> int {
    if align < ALLOC_GRANULE {
        ALLOC_GRANULE as int
    } else {
        align as int
    }
}

/// Size actually reserved for an allocation request.
pub open spec fn alloc_size(size: u64, align: u64) -> int {
    round_up(size as int, alloc_align(align))
}

/// Free blocks are ordered by start address and do not overlap.
pub open spec fn blocks_sorted(b: Seq<(u64, u64)>) -> bool {
    forall|i: int, j: int|
        0 <= i < j < b.len() ==> #[trigger] b[i].0 < #[trigger] b[j].0 && b[i].0 + b[i].1 <= b[j].0
}

/// Every free block lies in `[0, size)`.
pub open spec fn blocks_within(b: Seq<(u64, u64)>, size: u64) -> bool {
    forall|i: int| 0 <= i < b.len() ==> #[trigger] b[i].0 + b[i].1 <= size
}

/// Address `a` lies in one of the free blocks.
pub open spec fn in_blocks(b: Seq<(u64, u64)>, a: int) -> bool {
    exists|i: int| 0 <= i < b.len() && #[trigger] b[i].0 <= a < b[i].0 + b[i].1
}

/// The range `[addr, addr + sz]` is covered by one free block.
pub open spec fn block_covers(b: Seq<(u64, u64)>, addr: int, sz: int) -> bool {
    exists|i: int| 0 <= i < b.len() && #[trigger] b[i].0 <= addr && addr + sz <= b[i].0 + b[i].1
}

/// Block `m` is the largest of `b`, and the first among equals.
pub open spec fn first_max_ok(b: Seq<(u64, u64)>, m: int) -> bool {
    &&& 0 <= m < b.len()
    &&& forall|i: int| 0 <= i < b.len() ==> #[trigger] b[i].1 <= b[m].1
    &&& forall|i: int| 0 <= i < m ==> #[trigger] b[i].1 < b[m].1
}

/// The index of the first largest block of `b`.
pub open spec fn first_max(b: Seq<(u64, u64)>) -> int {
    choose|m: int| first_max_ok(b, m)
}

proof fn lemma_first_max(b: Seq<(u64, u64)>, m: int)
    requires
        first_max_ok(b, m),
    ensures
        first_max(b) == m,
{
    let c = choose|c: int| first_max_ok(b, c);
    assert(first_max_ok(b, c));
    if c < m {
        assert(b[c].1 < b[m].1);
        assert(b[m].1 <= b[c].1);
    } else if c > m {
        assert(b[m].1 < b[c].1);
        assert(b[c].1 <= b[m].1);
    }
}

/// Free blocks and the index of the block carved from, after the blocks
/// became `b`: the first largest block, or all memory free again when no
/// block is left.
pub open spec fn after_remove(b: Seq<(u64, u64)>, size: u64) -> (Seq<(u64, u64)>, int) {
    if b.len() == 0 {
        (seq![(0u64, size)], 0)
    } else {
        (b, first_max(b))
    }
}

/// Carving `psz` bytes aligned to `al` out of block `lm`: the new blocks,
/// the block to carve from next, and the address; none when the block is
/// too small. A remainder under one granule is dropped with the block.
#[verifier::opaque]
pub open spec fn carve(b: Seq<(u64, u64)>, lm: int, size: u64, psz: int, al: int) -> Option<(Seq<(u64, u64)>, int, u64)> {
    let blk = b[lm];
    let a = round_up(blk.0 as int, al);
    let end = blk.0 + blk.1;
    if a + psz > end {
        None
    } else if a + psz + ALLOC_GRANULE > end {
        let (nb, nm) = after_remove(b.remove(lm), size);
        Some((nb, nm, a as u64))
    } else {
        Some((b.update(lm, ((a + psz) as u64, (end - (a + psz)) as u64)), lm, a as u64))
    }
}

/// An allocation: from the block carved from last; else from the first
/// largest block; else from all memory free again.
pub open spec fn alloc_result(b: Seq<(u64, u64)>, lm: int, size: u64, psz: int, al: int) -> (Seq<(u64, u64)>, int, u64) {
    match carve(b, lm, size, psz, al) {
        Some(x) => x,
        None => {
            let m = first_max(b);
            let second = if m != lm {
                carve(b, m, size, psz, al)
            } else {
                None
            };
            match second {
                Some(x) => x,
                None => carve(seq![(0u64, size)], 0, size, psz, al).unwrap(),
            }
        },
    }
}

/// Noting `[addr, addr + sz)` as used: the new blocks and block to carve
/// from, or none when no free block covers the range. The covering block
/// is split around the range, shrunk, or dropped; pieces under one granule
/// are dropped.
#[verifier::opaque]
pub open spec fn note_result(b: Seq<(u64, u64)>, lm: int, size: u64, addr: int, sz: int) -> Option<(Seq<(u64, u64)>, int)> {
    if exists|i: int| 0 <= i < b.len() && #[trigger] b[i].0 == addr {
        let i = choose|i: int| 0 <= i < b.len() && #[trigger] b[i].0 == addr;
        if b[i].1 < sz {
            None
        } else if b[i].1 < sz + ALLOC_GRANULE {
            Some(after_remove(b.remove(i), size))
        } else {
            Some((b.update(i, ((addr + sz) as u64, (b[i].1 - sz) as u64)), lm))
        }
    } else if exists|j: int| 0 <= j < b.len() && #[trigger] b[j].0 < addr {
        let j = choose|j: int|
            0 <= j < b.len() && #[trigger] b[j].0 < addr && forall|k: int| j < k < b.len() ==> #[trigger] b[k].0 > addr;
        let start = b[j].0;
        let end = b[j].0 + b[j].1;
        let aend = addr + sz;
        if end < aend {
            None
        } else if addr - start >= ALLOC_GRANULE {
            let b1 = b.update(j, (start, (addr - start) as u64));
            if end - aend >= ALLOC_GRANULE {
                Some((b1.insert(j + 1, (aend as u64, (end - aend) as u64)), lm))
            } else {
                Some((b1, lm))
            }
        } else if end - aend >= ALLOC_GRANULE {
            Some((b.update(j, (aend as u64, (end - aend) as u64)), lm))
        } else {
            Some(after_remove(b.remove(j), size))
        }
    } else {
        None
    }
}

proof fn lemma_note_at(b: Seq<(u64, u64)>, lm: int, size: u64, addr: int, sz: int, i: int)
    requires
        blocks_sorted(b),
        0 <= i < b.len(),
        b[i].0 == addr,
    ensures
        note_result(b, lm, size, addr, sz) == (if b[i].1 < sz {
            None
        } else if b[i].1 < sz + ALLOC_GRANULE {
            Some(after_remove(b.remove(i), size))
        } else {
            Some((b.update(i, ((addr + sz) as u64, (b[i].1 - sz) as u64)), lm))
        }),
{
    reveal(note_result);
    let c = choose|c: int| 0 <= c < b.len() && #[trigger] b[c].0 == addr;
    if c < i {
        assert(b[c].0 < b[i].0);
    } else if c > i {
        assert(b[i].0 < b[c].0);
    }
}

proof fn lemma_note_inside(b: Seq<(u64, u64)>, lm: int, size: u64, addr: int, sz: int, j: int)
    requires
        blocks_sorted(b),
        0 <= j < b.len(),
        b[j].0 < addr,
        forall|k: int| j < k < b.len() ==> #[trigger] b[k].0 > addr,
    ensures
        note_result(b, lm, size, addr, sz) == ({
            let start = b[j].0;
            let end = b[j].0 + b[j].1;
            let aend = addr + sz;
            if end < aend {
                None
            } else if addr - start >= ALLOC_GRANULE {
                let b1 = b.update(j, (start, (addr - start) as u64));
                if end - aend >= ALLOC_GRANULE {
                    Some((b1.insert(j + 1, (aend as u64, (end - aend) as u64)), lm))
                } else {
                    Some((b1, lm))
                }
            } else if end - aend >= ALLOC_GRANULE {
                Some((b.update(j, (aend as u64, (end - aend) as u64)), lm))
            } else {
                Some(after_remove(b.remove(j), size))
            }
        }),
{
    reveal(note_result);
    assert(!exists|i: int| 0 <= i < b.len() && #[trigger] b[i].0 == addr) by {
        if exists|i: int| 0 <= i < b.len() && #[trigger] b[i].0 == addr {
            let i = choose|i: int| 0 <= i < b.len() && #[trigger] b[i].0 == addr;
            if i < j {
                assert(b[i].0 < b[j].0);
            }
        }
    }
    assert(b[j].0 < addr);
    let c = choose|c: int|
        0 <= c < b.len() && #[trigger] b[c].0 < addr && forall|k: int| c < k < b.len() ==> #[trigger] b[k].0 > addr;
    if c < j {
        assert(b[j].0 > addr);
    } else if c > j {
        assert(b[c].0 > addr);
    }
}

proof fn lemma_note_before_all(b: Seq<(u64, u64)>, lm: int, size: u64, addr: int, sz: int)
    requires
        forall|k: int| 0 <= k < b.len() ==> #[trigger] b[k].0 > addr,
    ensures
        note_result(b, lm, size, addr, sz) is None,
{
    reveal(note_result);
}

/// A dummy allocator: hands out addresses inside `[0, size)` and keeps the
/// free space as a list of blocks `(start, size)` sorted by start address.
#[derive(Debug, Clone, PartialEq, Eq)]
pub struct Allocator {
    free_blocks: Vec<(MemAddress, MemSize)>,
    /// Index of the free block that was last found to be the largest.
    last_max: usize,
    /// Total memory size to manage.
    size: u64,
}

impl Allocator {
    pub closed spec fn spec_blocks(&self) -> Seq<(u64, u64)> {
        self.free_blocks@
    }

    pub closed spec fn spec_size(&self) -> u64 {
        self.size
    }

    pub closed spec fn spec_last_max(&self) -> int {
        self.last_max as int
    }

    /// Well-formedness: at least one block, blocks sorted and inside the
    /// managed memory, which is a multiple of the granule.
    pub open spec fn wf(&self) -> bool {
        &&& self.spec_blocks().len() > 0
        &&& 0 <= self.spec_last_max() < self.spec_blocks().len()
        &&& blocks_sorted(self.spec_blocks())
        &&& blocks_within(self.spec_blocks(), self.spec_size())
        &&& self.spec_size() % ALLOC_GRANULE == 0
        &&& self.spec_size() <= MAX_MEM_SIZE
    }

    /// Address `a` is free.
    pub open spec fn is_free(&self, a: int) -> bool {
        in_blocks(self.spec_blocks(), a)
    }

    /// A freshly created allocator over `sz` bytes: everything is free.
    pub open spec fn is_fresh(&self, sz: u64) -> bool {
        &&& self.spec_size() == sz
        &&& self.spec_blocks() == seq![(0u64, sz)]
        &&& self.spec_last_max() == 0
    }

    /// Create an allocator managing `sz` bytes, rounded up to the granule.
    pub fn new(sz: u64) -> (r: Self)
        requires
            sz <= MAX_MEM_SIZE,
        ensures
            r.wf(),
            r.is_fresh(round_up(sz as int, ALLOC_GRANULE as int) as u64),
    {
        let size = if sz % ALLOC_GRANULE == 0 {
            sz
        } else {
            sz - sz % ALLOC_GRANULE + ALLOC_GRANULE
        };
        let mut free_blocks = Vec::new();
        free_blocks.push((0u64, size));
        Allocator { free_blocks, last_max: 0, size }
    }

    /// Total managed memory size.
    pub fn size(&self) -> (r: u64)
        ensures
            r == self.spec_size(),
    {
        self.size
    }

    /// Current free blocks, sorted by address.
    pub fn free_blocks(&self) -> (r: &Vec<(u64, u64)>)
        ensures
            r@ == self.spec_blocks(),
    {
        &self.free_blocks
    }

    /// Forget every allocation: the whole memory is free again.
    pub fn restore(&mut self)
        requires
            old(self).wf(),
        ensures
            final(self).wf(),
            final(self).is_fresh(old(self).spec_size()),
    {
        *self = Self::new(self.size);
    }

    /// Recompute the index of the largest free block (the first one among
    /// equals). Starts over when no block is left.
    fn update_max(&mut self) -> (updated: bool)
        requires
            blocks_sorted(old(self).spec_blocks()),
            blocks_within(old(self).spec_blocks(), old(self).spec_size()),
            old(self).spec_size() % ALLOC_GRANULE == 0,
            old(self).spec_size() <= MAX_MEM_SIZE,
        ensures
            final(self).wf(),
            final(self).spec_size() == old(self).spec_size(),
            old(self).spec_blocks().len() == 0 ==> final(self).is_fresh(old(self).spec_size()) && updated,
            old(self).spec_blocks().len() > 0 ==> {
                &&& final(self).spec_blocks() == old(self).spec_blocks()
                &&& final(self).spec_last_max() == first_max(old(self).spec_blocks())
                &&& updated == (final(self).spec_last_max() != old(self).spec_last_max())
                &&& forall|i: int|
                    0 <= i < final(self).spec_blocks().len() ==> #[trigger] final(self).spec_blocks()[i].1
                        <= final(self).spec_blocks()[final(self).spec_last_max()].1
                &&& forall|i: int|
                    0 <= i < final(self).spec_last_max() ==> #[trigger] final(self).spec_blocks()[i].1
                        < final(self).spec_blocks()[final(self).spec_last_max()].1
            },
    {
        if self.free_blocks.len() == 0 {
            *self = Self::new(self.size);
            return true;
        }
        let mut max: u64 = 0;
        let mut max_idx: usize = 0;
        let mut idx: usize = 0;
        let n = self.free_blocks.len();
        while idx < n
            invariant
                n == self.free_blocks@.len(),
                0 <= idx <= n,
                n > 0,
                max_idx < n,
                idx > 0 ==> max_idx < idx && max == self.free_blocks@[max_idx as int].1,
                idx == 0 ==> max_idx == 0 && max == 0,
                forall|i: int| 0 <= i < idx ==> #[trigger] self.free_blocks@[i].1 <= max,
                forall|i: int| 0 <= i < max_idx ==> #[trigger] self.free_blocks@[i].1 < max,
                idx > 0 && max == 0 ==> max_idx == 0,
            decreases n - idx,
        {
            let sz = self.free_blocks[idx].1;
            if sz > max {
                max_idx = idx;
                max = sz;
            }
            idx += 1;
        }
        let updated = self.last_max != max_idx;
        self.last_max = max_idx;
        proof {
            lemma_first_max(self.free_blocks@, max_idx as int);
        }
        updated
    }

    /// Try to carve an aligned block of `psz` bytes out of the current
    /// largest free block.
    fn try_alloc(&mut self, psz: u64, align: u64) -> (r: Option<u64>)
        requires
            old(self).wf(),
            align > 0,
            psz < old(self).spec_size(),
            old(self).spec_size() + align <= ADDR_SPACE_LIMIT,
        ensures
            final(self).wf(),
            final(self).spec_size() == old(self).spec_size(),
            match carve(old(self).spec_blocks(), old(self).spec_last_max(), old(self).spec_size(), psz as int, align as int) {
                None => r is None,
                Some(x) => r == Some(x.2) && final(self).spec_blocks() == x.0 && final(self).spec_last_max() == x.1,
            },
            ({
                let b = old(self).spec_blocks()[old(self).spec_last_max()];
                let aligned = round_up(b.0 as int, align as int);
                match r {
                    None => {
                        &&& *final(self) == *old(self)
                        &&& aligned + psz > b.0 + b.1
                    },
                    Some(a) => {
                        &&& a == aligned
                        &&& (a as int) % (align as int) == 0
                        &&& a + psz <= b.0 + b.1
                        &&& (final(self).is_fresh(old(self).spec_size()) || forall|x: int|
                            #[trigger] final(self).is_free(x) ==> old(self).is_free(x) && !(a <= x
                                < a + psz))
                    },
                }
            }),
    {
        reveal(carve);
        let (block_start, block_size) = self.free_blocks[self.last_max];
        proof {
            assert(self.free_blocks@[self.last_max as int].0 + self.free_blocks@[self.last_max as int].1
                <= self.size);
            vstd::arithmetic::div_mod::lemma_mod_decreases(block_start as nat, align as nat);
            vstd::arithmetic::div_mod::lemma_mod_bound(block_start as int, align as int);
        }
        let block_end = block_start + block_size;
        let aligned_addr = if block_start % align == 0 {
            block_start
        } else {
            block_start - block_start % align + align
        };
        proof {
            lemma_round_up_aligned(block_start as int, align as int);
        }
        let alloc_end = aligned_addr + psz;
        if alloc_end > block_end {
            return None;
        }
        let ghost old_blocks = self.free_blocks@;
        let ghost lm = self.last_max as int;
        if alloc_end + ALLOC_GRANULE > block_end {
            let lmx = self.last_max;
            self.free_blocks.remove(lmx);
            proof {
                let nb = self.free_blocks@;
                assert(nb == old_blocks.remove(lm));
                assert forall|i: int, j: int| 0 <= i < j < nb.len() implies #[trigger] nb[i].0
                    < #[trigger] nb[j].0 && nb[i].0 + nb[i].1 <= nb[j].0 by {
                    let oi = if i < lm { i } else { i + 1 };
                    let oj = if j < lm { j } else { j + 1 };
                    assert(nb[i] == old_blocks[oi]);
                    assert(nb[j] == old_blocks[oj]);
                }
                assert forall|i: int| 0 <= i < nb.len() implies #[trigger] nb[i].0 + nb[i].1
                    <= self.size by {
                    let oi = if i < lm { i } else { i + 1 };
                    assert(nb[i] == old_blocks[oi]);
                }
                assert forall|x: int| #[trigger] in_blocks(nb, x) implies in_blocks(old_blocks, x)
                    && !(aligned_addr <= x < aligned_addr + psz) by {
                    let i = choose|i: int| 0 <= i < nb.len() && #[trigger] nb[i].0 <= x < nb[i].0
                        + nb[i].1;
                    let oi = if i < lm { i } else { i + 1 };
                    assert(nb[i] == old_blocks[oi]);
                    assert(old_blocks[oi].0 <= x < old_blocks[oi].0 + old_blocks[oi].1);
                    if oi < lm {
                        assert(old_blocks[oi].0 + old_blocks[oi].1 <= old_blocks[lm].0);
                    } else {
                        assert(old_blocks[lm].0 + old_blocks[lm].1 <= old_blocks[oi].0);
                    }
                }
            }
            self.update_max();
        } else {
            let lmx = self.last_max;
            self.free_blocks.set(lmx, (alloc_end, block_end - alloc_end));
            proof {
                let nb = self.free_blocks@;
                assert forall|i: int, j: int| 0 <= i < j < nb.len() implies #[trigger] nb[i].0
                    < #[trigger] nb[j].0 && nb[i].0 + nb[i].1 <= nb[j].0 by {
                    assert(old_blocks[i].0 < old_blocks[j].0);
                }
                assert forall|i: int| 0 <= i < nb.len() implies #[trigger] nb[i].0 + nb[i].1
                    <= self.size by {
                    assert(old_blocks[i].0 + old_blocks[i].1 <= self.size);
                }
                assert forall|x: int| #[trigger] in_blocks(nb, x) implies in_blocks(old_blocks, x)
                    && !(aligned_addr <= x < aligned_addr + psz) by {
                    let i = choose|i: int| 0 <= i < nb.len() && #[trigger] nb[i].0 <= x < nb[i].0
                        + nb[i].1;
                    assert(old_blocks[i].0 <= x < old_blocks[i].0 + old_blocks[i].1);
                    if i < lm {
                        assert(old_blocks[i].0 + old_blocks[i].1 <= old_blocks[lm].0);
                    } else if i > lm {
                        assert(old_blocks[lm].0 + old_blocks[lm].1 <= old_blocks[i].0);
                    }
                }
            }
        }
        Some(aligned_addr)
    }

    /// Allocate `size` bytes aligned to `align` (both raised to the granule).
    /// When no free block is large enough the allocator starts over with all
    /// memory free and allocates from its start.
    pub fn allocate(&mut self, size: u64, align: u64) -> (addr: u64)
        requires
            old(self).wf(),
            align > 0,
            alloc_size(size, align) < old(self).spec_size(),
            old(self).spec_size() + alloc_align(align) <= ADDR_SPACE_LIMIT,
        ensures
            final(self).wf(),
            final(self).spec_size() == old(self).spec_size(),
            (addr as int) % alloc_align(align) == 0,
            addr + alloc_size(size, align) <= old(self).spec_size(),
            final(self).is_fresh(old(self).spec_size()) || forall|x: int|
                #[trigger] final(self).is_free(x) ==> !(addr <= x < addr + alloc_size(size, align)),
            addr != 0 ==> forall|x: int|
                addr <= x < addr + alloc_size(size, align) ==> #[trigger] old(self).is_free(x),
            addr != 0 && !final(self).is_fresh(old(self).spec_size()) ==> forall|x: int|
                #[trigger] final(self).is_free(x) ==> old(self).is_free(x),
            (final(self).spec_blocks(), final(self).spec_last_max(), addr) == alloc_result(
                old(self).spec_blocks(),
                old(self).spec_last_max(),
                old(self).spec_size(),
                alloc_size(size, align),
                alloc_align(align),
            ),
    {
        let al = if align < ALLOC_GRANULE {
            ALLOC_GRANULE
        } else {
            align
        };
        proof {
            vstd::arithmetic::div_mod::lemma_mod_decreases(size as nat, al as nat);
        }
        let psz = if size % al == 0 {
            size
        } else {
            size - size % al + al
        };
        let ghost old_self = *self;
        let ghost b0 = self.free_blocks@[self.last_max as int];
        if let Some(addr) = self.try_alloc(psz, al) {
            proof { self.lemma_block_range_free(old_self, b0, addr, psz); }
            return addr;
        }
        let ghost mid = *self;
        if self.update_max() {
            let ghost b1 = self.free_blocks@[self.last_max as int];
            if let Some(addr) = self.try_alloc(psz, al) {
                proof { self.lemma_block_range_free(mid, b1, addr, psz); }
                return addr;
            }
        }
        *self = Self::new(self.size);
        proof {
            vstd::arithmetic::div_mod::lemma_mod_bound(0, al as int);
        }
        match self.try_alloc(psz, al) {
            Some(addr) => addr,
            None => {
                proof {
                    assert(false);
                }
                0
            },
        }
    }

    /// The range handed out from a block that was free is free in the old state.
    proof fn lemma_block_range_free(&self, old_self: Allocator, b: (u64, u64), addr: u64, psz: u64)
        requires
            exists|i: int| 0 <= i < old_self.spec_blocks().len() && old_self.spec_blocks()[i] == b,
            b.0 <= addr,
            addr + psz <= b.0 + b.1,
        ensures
            forall|x: int| addr <= x < addr + psz ==> #[trigger] old_self.is_free(x),
    {
        let i = choose|i: int| 0 <= i < old_self.spec_blocks().len() && old_self.spec_blocks()[i] == b;
        assert forall|x: int| addr <= x < addr + psz implies #[trigger] old_self.is_free(x) by {
            assert(old_self.spec_blocks()[i].0 <= x < old_self.spec_blocks()[i].0
                + old_self.spec_blocks()[i].1);
        }
    }

    /// Binary search of a free block by its start address, with the meaning
    /// of `binary_search`: `(true, i)` when block `i` starts at `addr`, else
    /// `(false, i)` where `i` is the insertion point.
    fn search_block(&self, addr: u64) -> (r: (bool, usize))
        requires
            self.wf(),
        ensures
            r.0 ==> r.1 < self.spec_blocks().len() && self.spec_blocks()[r.1 as int].0 == addr,
            !r.0 ==> r.1 <= self.spec_blocks().len() && (forall|j: int|
                0 <= j < r.1 ==> #[trigger] self.spec_blocks()[j].0 < addr) && (forall|j: int|
                r.1 <= j < self.spec_blocks().len() ==> #[trigger] self.spec_blocks()[j].0 > addr),
    {
        let mut lo: usize = 0;
        let mut hi: usize = self.free_blocks.len();
        while lo < hi
            invariant
                0 <= lo <= hi <= self.free_blocks@.len(),
                blocks_sorted(self.free_blocks@),
                forall|j: int| 0 <= j < lo ==> #[trigger] self.free_blocks@[j].0 < addr,
                forall|j: int| hi <= j < self.free_blocks@.len() ==> #[trigger] self.free_blocks@[j].0
                    > addr,
            decreases hi - lo,
        {
            let mid = lo + (hi - lo) / 2;
            let start = self.free_blocks[mid].0;
            if start == addr {
                return (true, mid);
            } else if start < addr {
                proof {
                    assert forall|j: int| 0 <= j < mid + 1 implies #[trigger] self.free_blocks@[j].0
                        < addr by {
                        if j < mid {
                            assert(self.free_blocks@[j].0 < self.free_blocks@[mid as int].0);
                        }
                    }
                }
                lo = mid + 1;
            } else {
                proof {
                    assert forall|j: int| mid <= j < self.free_blocks@.len() implies #[trigger] self.free_blocks@[j].0
                        > addr by {
                        if j > mid {
                            assert(self.free_blocks@[mid as int].0 < self.free_blocks@[j].0);
                        }
                    }
                }
                hi = mid;
            }
        }
        (false, lo)
    }

    /// Record that `[alloc_addr, alloc_addr + alloc_sz)` is in use. Returns
    /// whether a single free block covered that range; the covering block is
    /// split, shrunk or dropped (remainders under one granule are dropped).
    pub fn note_alloc(&mut self, alloc_addr: u64, alloc_sz: u64) -> (r: bool)
        requires
            old(self).wf(),
            (exists|i: int|
                0 <= i < old(self).spec_blocks().len() && #[trigger] old(self).spec_blocks()[i].0
                    < alloc_addr) ==> alloc_addr + alloc_sz <= u64::MAX,
        ensures
            final(self).wf(),
            final(self).spec_size() == old(self).spec_size(),
            r == block_covers(old(self).spec_blocks(), alloc_addr as int, alloc_sz as int),
            !r ==> *final(self) == *old(self),
            r ==> final(self).is_fresh(old(self).spec_size()) || forall|x: int|
                #[trigger] final(self).is_free(x) ==> old(self).is_free(x) && !(alloc_addr <= x
                    < alloc_addr + alloc_sz),
            match note_result(old(self).spec_blocks(), old(self).spec_last_max(), old(self).spec_size(), alloc_addr as int, alloc_sz as int) {
                None => !r,
                Some(x) => r && final(self).spec_blocks() == x.0 && final(self).spec_last_max() == x.1,
            },
    {
        let ghost ob = self.free_blocks@;
        let (found, idx) = self.search_block(alloc_addr);
        if found {
            proof {
                lemma_note_at(ob, self.last_max as int, self.size, alloc_addr as int, alloc_sz as int, idx as int);
            }
            let (block_start, block_size) = self.free_blocks[idx];
            proof {
                assert(ob[idx as int].0 + ob[idx as int].1 <= self.size);
            }
            if block_size < alloc_sz {
                proof {
                    assert forall|i: int| 0 <= i < ob.len() && #[trigger] ob[i].0 <= alloc_addr
                        implies !(alloc_addr + alloc_sz <= ob[i].0 + ob[i].1) by {
                        if i < idx {
                            assert(ob[i].0 + ob[i].1 <= ob[idx as int].0);
                        } else if i > idx {
                            assert(ob[idx as int].0 < ob[i].0);
                        }
                    }
                }
                return false;
            }
            proof {
                assert(ob[idx as int].0 <= alloc_addr && alloc_addr + alloc_sz <= ob[idx as int].0
                    + ob[idx as int].1);
            }
            if block_size < alloc_sz + ALLOC_GRANULE {
                self.free_blocks.remove(idx);
                proof {
                    self.lemma_remove_keeps(ob, idx as int, alloc_addr as int, alloc_sz as int);
                }
                self.update_max();
            } else {
                self.free_blocks.set(idx, (block_start + alloc_sz, block_size - alloc_sz));
                proof {
                    self.lemma_shrink_front(ob, idx as int, alloc_addr as int, alloc_sz as int);
                }
            }
            true
        } else {
            if idx != 0 {
                let j = idx - 1;
                proof {
                    lemma_note_inside(ob, self.last_max as int, self.size, alloc_addr as int, alloc_sz as int, j as int);
                }
                let (block_start, block_size) = self.free_blocks[j];
                proof {
                    assert(ob[j as int].0 + ob[j as int].1 <= self.size);
                    assert(ob[j as int].0 < alloc_addr);
                }
                let block_end = block_start + block_size;
                let alloc_end = alloc_addr + alloc_sz;
                if block_end < alloc_end {
                    proof {
                        assert forall|i: int| 0 <= i < ob.len() && #[trigger] ob[i].0 <= alloc_addr
                            implies !(alloc_addr + alloc_sz <= ob[i].0 + ob[i].1) by {
                            if i < j {
                                assert(ob[i].0 + ob[i].1 <= ob[j as int].0);
                            }
                        }
                    }
                    return false;
                }
                proof {
                    assert(ob[j as int].0 <= alloc_addr && alloc_addr + alloc_sz <= ob[j as int].0
                        + ob[j as int].1);
                }
                if alloc_addr - block_start >= ALLOC_GRANULE {
                    self.free_blocks.set(j, (block_start, alloc_addr - block_start));
                    let ghost mid = self.free_blocks@;
                    proof {
                        self.lemma_shrink_back(ob, j as int, alloc_addr as int, alloc_sz as int);
                    }
                    if block_end - alloc_end >= ALLOC_GRANULE {
                        self.free_blocks.insert(idx, (alloc_end, block_end - alloc_end));
                        proof {
                            self.lemma_insert_tail(ob, mid, j as int, alloc_addr as int, alloc_sz as int);
                        }
                    }
                } else {
                    if block_end - alloc_end >= ALLOC_GRANULE {
                        self.free_blocks.set(j, (alloc_end, block_end - alloc_end));
                        proof {
                            self.lemma_shrink_front(ob, j as int, alloc_addr as int, alloc_sz as int);
                        }
                    } else {
                        self.free_blocks.remove(j);
                        proof {
                            self.lemma_remove_keeps(ob, j as int, alloc_addr as int, alloc_sz as int);
                        }
                        self.update_max();
                    }
                }
                return true;
            }
            proof {
                assert forall|i: int| 0 <= i < ob.len() && #[trigger] ob[i].0 <= alloc_addr implies
                    false by {
                    assert(ob[i].0 > alloc_addr);
                }
                lemma_note_before_all(ob, self.last_max as int, self.size, alloc_addr as int, alloc_sz as int);
            }
            false
        }
    }

    /// Removing block `k` that contains the noted range keeps the blocks
    /// sorted and only frees a subset of the old free space.
    proof fn lemma_remove_keeps(&self, ob: Seq<(u64, u64)>, k: int, addr: int, sz: int)
        requires
            0 <= k < ob.len(),
            self.spec_blocks() == ob.remove(k),
            blocks_sorted(ob),
            blocks_within(ob, self.spec_size()),
            ob[k].0 <= addr,
            sz >= 0,
            addr + sz <= ob[k].0 + ob[k].1,
        ensures
            blocks_sorted(self.spec_blocks()),
            blocks_within(self.spec_blocks(), self.spec_size()),
            forall|x: int| #[trigger] in_blocks(self.spec_blocks(), x) ==> in_blocks(ob, x) && !(addr
                <= x < addr + sz),
    {
        let nb = self.spec_blocks();
        assert forall|i: int, j: int| 0 <= i < j < nb.len() implies #[trigger] nb[i].0
            < #[trigger] nb[j].0 && nb[i].0 + nb[i].1 <= nb[j].0 by {
            let oi = if i < k { i } else { i + 1 };
            let oj = if j < k { j } else { j + 1 };
            assert(nb[i] == ob[oi]);
            assert(nb[j] == ob[oj]);
        }
        assert forall|i: int| 0 <= i < nb.len() implies #[trigger] nb[i].0 + nb[i].1
            <= self.spec_size() by {
            let oi = if i < k { i } else { i + 1 };
            assert(nb[i] == ob[oi]);
        }
        assert forall|x: int| #[trigger] in_blocks(nb, x) implies in_blocks(ob, x) && !(addr <= x
            < addr + sz) by {
            let i = choose|i: int| 0 <= i < nb.len() && #[trigger] nb[i].0 <= x < nb[i].0 + nb[i].1;
            let oi = if i < k { i } else { i + 1 };
            assert(nb[i] == ob[oi]);
            assert(ob[oi].0 <= x < ob[oi].0 + ob[oi].1);
            if oi < k {
                assert(ob[oi].0 + ob[oi].1 <= ob[k].0);
            } else {
                assert(ob[k].0 + ob[k].1 <= ob[oi].0);
            }
        }
    }

    /// Replacing block `k` by its part after the noted range.
    proof fn lemma_shrink_front(&self, ob: Seq<(u64, u64)>, k: int, addr: int, sz: int)
        requires
            0 <= k < ob.len(),
            self.spec_blocks().len() == ob.len(),
            forall|i: int| 0 <= i < ob.len() && i != k ==> #[trigger] self.spec_blocks()[i] == ob[i],
            self.spec_blocks()[k].0 == addr + sz,
            self.spec_blocks()[k].0 + self.spec_blocks()[k].1 == ob[k].0 + ob[k].1,
            blocks_sorted(ob),
            blocks_within(ob, self.spec_size()),
            ob[k].0 <= addr,
            sz >= 0,
            addr + sz < ob[k].0 + ob[k].1,
        ensures
            blocks_sorted(self.spec_blocks()),
            blocks_within(self.spec_blocks(), self.spec_size()),
            forall|x: int| #[trigger] in_blocks(self.spec_blocks(), x) ==> in_blocks(ob, x) && !(addr
                <= x < addr + sz),
    {
        let nb = self.spec_blocks();
        assert forall|i: int, j: int| 0 <= i < j < nb.len() implies #[trigger] nb[i].0
            < #[trigger] nb[j].0 && nb[i].0 + nb[i].1 <= nb[j].0 by {
            assert(ob[i].0 < ob[j].0 && ob[i].0 + ob[i].1 <= ob[j].0);
            if i < k && k < j {
                assert(ob[i].0 + ob[i].1 <= ob[k].0 && ob[k].0 + ob[k].1 <= ob[j].0);
            } else if i < k && k == j {
                assert(ob[i].0 + ob[i].1 <= ob[k].0);
            }
        }
        assert forall|i: int| 0 <= i < nb.len() implies #[trigger] nb[i].0 + nb[i].1
            <= self.spec_size() by {
            assert(ob[i].0 + ob[i].1 <= self.spec_size());
            assert(ob[k].0 + ob[k].1 <= self.spec_size());
        }
        assert forall|x: int| #[trigger] in_blocks(nb, x) implies in_blocks(ob, x) && !(addr <= x
            < addr + sz) by {
            let i = choose|i: int| 0 <= i < nb.len() && #[trigger] nb[i].0 <= x < nb[i].0 + nb[i].1;
            if i == k {
                assert(ob[k].0 <= x < ob[k].0 + ob[k].1);
            } else {
                assert(ob[i].0 <= x < ob[i].0 + ob[i].1);
            }
            if i < k {
                assert(ob[i].0 + ob[i].1 <= ob[k].0);
            } else if i > k {
                assert(ob[k].0 + ob[k].1 <= ob[i].0);
            }
        }
    }

    /// Replacing block `k` by its part before the noted range.
    proof fn lemma_shrink_back(&self, ob: Seq<(u64, u64)>, k: int, addr: int, sz: int)
        requires
            0 <= k < ob.len(),
            self.spec_blocks() == ob.update(k, (ob[k].0, (addr - ob[k].0) as u64)),
            blocks_sorted(ob),
            blocks_within(ob, self.spec_size()),
            ob[k].0 < addr,
            sz >= 0,
            addr + sz <= ob[k].0 + ob[k].1,
        ensures
            blocks_sorted(self.spec_blocks()),
            blocks_within(self.spec_blocks(), self.spec_size()),
            forall|x: int| #[trigger] in_blocks(self.spec_blocks(), x) ==> in_blocks(ob, x) && !(addr
                <= x < addr + sz),
    {
        let nb = self.spec_blocks();
        assert forall|i: int, j: int| 0 <= i < j < nb.len() implies #[trigger] nb[i].0
            < #[trigger] nb[j].0 && nb[i].0 + nb[i].1 <= nb[j].0 by {
            assert(ob[i].0 < ob[j].0 && ob[i].0 + ob[i].1 <= ob[j].0);
        }
        assert forall|i: int| 0 <= i < nb.len() implies #[trigger] nb[i].0 + nb[i].1
            <= self.spec_size() by {
            assert(ob[i].0 + ob[i].1 <= self.spec_size());
        }
        assert forall|x: int| #[trigger] in_blocks(nb, x) implies in_blocks(ob, x) && !(addr <= x
            < addr + sz) by {
            let i = choose|i: int| 0 <= i < nb.len() && #[trigger] nb[i].0 <= x < nb[i].0 + nb[i].1;
            assert(ob[i].0 <= x < ob[i].0 + ob[i].1);
            if i < k {
                assert(ob[i].0 + ob[i].1 <= ob[k].0);
            } else if i > k {
                assert(ob[k].0 + ob[k].1 <= ob[i].0);
            }
        }
    }

    /// Inserting the part of block `k` after the noted range right after it.
    proof fn lemma_insert_tail(&self, ob: Seq<(u64, u64)>, mid: Seq<(u64, u64)>, k: int, addr: int, sz: int)
        requires
            0 <= k < ob.len(),
            mid == ob.update(k, (ob[k].0, (addr - ob[k].0) as u64)),
            self.spec_blocks() == mid.insert(k + 1, ((addr + sz) as u64, (ob[k].0 + ob[k].1 - addr - sz) as u64)),
            blocks_sorted(ob),
            blocks_within(ob, self.spec_size()),
            ob[k].0 < addr,
            sz >= 0,
            addr + sz < ob[k].0 + ob[k].1,
        ensures
            blocks_sorted(self.spec_blocks()),
            blocks_within(self.spec_blocks(), self.spec_size()),
            forall|x: int| #[trigger] in_blocks(self.spec_blocks(), x) ==> in_blocks(ob, x) && !(addr
                <= x < addr + sz),
    {
        let nb = self.spec_blocks();
        assert forall|i: int, j: int| 0 <= i < j < nb.len() implies #[trigger] nb[i].0
            < #[trigger] nb[j].0 && nb[i].0 + nb[i].1 <= nb[j].0 by {
            let oi = if i <= k { i } else { i - 1 };
            let oj = if j <= k { j } else { j - 1 };
            assert(ob[oi].0 <= nb[i].0);
            assert(oi <= oj);
            if oi < oj {
                assert(ob[oi].0 < ob[oj].0 && ob[oi].0 + ob[oi].1 <= ob[oj].0);
            }
        }
        assert forall|i: int| 0 <= i < nb.len() implies #[trigger] nb[i].0 + nb[i].1
            <= self.spec_size() by {
            let oi = if i <= k { i } else { i - 1 };
            assert(ob[oi].0 + ob[oi].1 <= self.spec_size());
        }
        assert forall|x: int| #[trigger] in_blocks(nb, x) implies in_blocks(ob, x) && !(addr <= x
            < addr + sz) by {
            let i = choose|i: int| 0 <= i < nb.len() && #[trigger] nb[i].0 <= x < nb[i].0 + nb[i].1;
            let oi = if i <= k { i } else { i - 1 };
            assert(ob[oi].0 <= x < ob[oi].0 + ob[oi].1);
            if oi < k {
                assert(ob[oi].0 + ob[oi].1 <= ob[k].0);
            } else if oi > k {
                assert(ob[k].0 + ob[k].1 <= ob[oi].0);
            }
        }
    }
}

} // verus!

verus! {

/// The pages of `[lo, hi)` that are not in `used`, in ascending order.
pub open spec fn fresh_pages(used: Set<u64>, lo: int, hi: int) -> Seq<u64>
    decreases hi - lo,
{
    if hi <= lo {
        Seq::empty()
    } else {
        let rest = fresh_pages(used, lo, hi - 1);
        if used.contains((hi - 1) as u64) {
            rest
        } else {
            rest.push((hi - 1) as u64)
        }
    }
}

/// Page allocator for vma values, following Syzkaller's strategy: mostly
/// reuse pages that are already in use, sometimes pick pages at either end
/// of the memory.
#[derive(Debug)]
pub struct VmaAllocator {
    page_num: u64,
    /// Used pages, in the order they were first noted.
    used: Vec<u64>,
    used_set: AHashSet<u64>,
}

impl VmaAllocator {
    pub closed spec fn spec_page_num(&self) -> u64 {
        self.page_num
    }

    /// Used pages in the order they were first noted.
    pub closed spec fn spec_used(&self) -> Seq<u64> {
        self.used@
    }

    pub closed spec fn wf(&self) -> bool {
        &&& u64_items(self.used_set) == self.used@.to_set()
        &&& self.used@.no_duplicates()
    }

    pub fn new(page_num: u64) -> (r: Self)
        ensures
            r.wf(),
            r.spec_page_num() == page_num,
            r.spec_used() == Seq::<u64>::empty(),
    {
        let r = VmaAllocator { page_num, used: Vec::new(), used_set: u64_set_new() };
        proof {
            assert(r.used@.to_set() =~= Set::<u64>::empty());
        }
        r
    }

    /// Number of pages managed.
    pub fn page_num(&self) -> (r: u64)
        ensures
            r == self.spec_page_num(),
    {
        self.page_num
    }

    /// Used pages in the order they were first noted.
    pub fn used(&self) -> (r: &Vec<u64>)
        ensures
            r@ == self.spec_used(),
    {
        &self.used
    }

    /// Mark pages `[page_idx, page_idx + num)` as used: those not used yet
    /// are appended to the used pages, in ascending order.
    pub fn note_alloc(&mut self, page_idx: u64, num: u64)
        requires
            old(self).wf(),
            page_idx + num <= u64::MAX,
        ensures
            final(self).wf(),
            final(self).spec_page_num() == old(self).spec_page_num(),
            final(self).spec_used().to_set() == old(self).spec_used().to_set().union(
                Set::new(|p: u64| page_idx <= p < page_idx + num),
            ),
            final(self).spec_used().subrange(0, old(self).spec_used().len() as int)
                == old(self).spec_used(),
            final(self).spec_used() == old(self).spec_used() + fresh_pages(
                old(self).spec_used().to_set(),
                page_idx as int,
                page_idx + num,
            ),
    {
        let ghost old_used = self.used@;
        let end = page_idx + num;
        let mut page = page_idx;
        while page < end
            invariant
                page_idx <= page <= end,
                end == page_idx + num,
                self.wf(),
                self.page_num == old(self).page_num,
                self.used@.to_set() == old_used.to_set().union(Set::new(|p: u64| page_idx <= p < page)),
                self.used@.subrange(0, old_used.len() as int) == old_used,
                old_used.len() <= self.used@.len(),
                self.used@ == old_used + fresh_pages(old_used.to_set(), page_idx as int, page as int),
            decreases end - page,
        {
            let ghost prev = self.used@;
            let ghost prev_set = u64_items(self.used_set);
            if u64_set_insert(&mut self.used_set, page) {
                self.used.push(page);
                proof {
                    assert(u64_items(self.used_set) == prev_set.insert(page));
                    assert(!prev.contains(page));
                    assert(self.used@.no_duplicates()) by {
                        assert forall|i: int, j: int|
                            0 <= i < self.used@.len() && 0 <= j < self.used@.len() && i != j implies
                            self.used@[i] != self.used@[j] by {
                            if i < prev.len() && j < prev.len() {
                            } else if i == prev.len() {
                                assert(prev.contains(self.used@[j]));
                            } else {
                                assert(prev.contains(self.used@[i]));
                            }
                        }
                    }
                    assert(self.used@.to_set() =~= prev.to_set().insert(page)) by {
                        assert(self.used@ == prev.push(page));
                        prev.lemma_push_to_set_commute(page);
                    }
                    assert(self.used@.subrange(0, old_used.len() as int) =~= prev.subrange(0, old_used.len() as int));
                }
            } else {
                proof {
                    assert(u64_items(self.used_set) == prev_set.insert(page));
                    assert(prev.to_set().contains(page));
                    assert(u64_items(self.used_set) =~= prev_set);
                }
            }
            proof {
                assert(self.used@.to_set() =~= old_used.to_set().union(
                    Set::new(|p: u64| page_idx <= p < page + 1),
                ));
            }
            page = page + 1;
        }
        proof {
            assert(Set::new(|p: u64| page_idx <= p < page) =~= Set::new(
                |p: u64| page_idx <= p < page_idx + num,
            ));
        }
    }

    /// Pick `num` consecutive pages and mark them used. Returns the index of
    /// the first page; the pages always fit inside the managed memory.
    pub fn allocate(&mut self, rng: &mut rand::rngs::SmallRng, num: u64) -> (page: u64)
        requires
            old(self).wf(),
            num + 3 <= old(self).spec_page_num(),
            forall|i: int|
                0 <= i < old(self).spec_used().len() ==> #[trigger] old(self).spec_used()[i] + num
                    <= u64::MAX,
        ensures
            final(self).wf(),
            final(self).spec_page_num() == old(self).spec_page_num(),
            page + num <= old(self).spec_page_num(),
            final(self).spec_used().to_set() == old(self).spec_used().to_set().union(
                Set::new(|p: u64| page <= p < page + num),
            ),
    {
        let mut page: u64;
        if self.used.len() == 0 || crate::rng::rand_ratio(rng, 1, 5) {
            page = crate::rng::rand_in_range(rng, 0, 3);
            if !crate::rng::rand_ratio(rng, 1, 100) {
                page = self.page_num - page - num;
            }
        } else {
            let i = crate::rng::rand_index(rng, self.used.len());
            page = self.used[i];
            proof {
                assert(old(self).spec_used()[i as int] + num <= u64::MAX);
            }
            if num > 1 && crate::rng::rand_bool(rng) {
                let mut off = crate::rng::rand_in_range(rng, 0, num - 1);
                if off > page {
                    off = page;
                }
                page = page - off;
            }
            if page + num > self.page_num {
                page = self.page_num - num;
            }
        }
        self.note_alloc(page, num);
        page
    }
}

} // verus!

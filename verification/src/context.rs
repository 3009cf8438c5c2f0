//! What generating and mutating the calls of a program keeps track of: the
//! allocators values are placed with, the next resource id, the resources
//! generated so far by kind, the strings and file names generated, and the
//! calls made so far.
use crate::allocator::{Allocator, VmaAllocator, MAX_MEM_SIZE};
use crate::parse::ParsedCall;
use crate::target::ResKindId;
use crate::value::ResValueId;
use vstd::prelude::*;

verus! {

/// `a` comes before `b` in the order of byte strings: at the first position
/// where they differ the byte of `a` is smaller, or `a` is a proper prefix
/// of `b`.
pub open spec fn bytes_lt(a: Seq<u8>, b: Seq<u8>) -> bool
    decreases a.len(),
{
    if a.len() == 0 {
        b.len() > 0
    } else if b.len() == 0 {
        false
    } else if a[0] != b[0] {
        a[0] < b[0]
    } else {
        bytes_lt(a.drop_first(), b.drop_first())
    }
}

proof fn lemma_bytes_lt_total(a: Seq<u8>, b: Seq<u8>)
    requires
        a != b,
    ensures
        bytes_lt(a, b) || bytes_lt(b, a),
    decreases a.len(),
{
    if a.len() == 0 && b.len() == 0 {
        assert(a =~= b);
    } else if a.len() > 0 && b.len() > 0 && a[0] == b[0] {
        if a.drop_first() == b.drop_first() {
            assert(a =~= seq![a[0]] + a.drop_first());
            assert(b =~= seq![b[0]] + b.drop_first());
        }
        lemma_bytes_lt_total(a.drop_first(), b.drop_first());
    }
}

proof fn lemma_bytes_lt_trans(a: Seq<u8>, b: Seq<u8>, c: Seq<u8>)
    requires
        bytes_lt(a, b),
        bytes_lt(b, c),
    ensures
        bytes_lt(a, c),
    decreases a.len(),
{
    if a.len() > 0 && b.len() > 0 && c.len() > 0 && a[0] == b[0] && b[0] == c[0] {
        lemma_bytes_lt_trans(a.drop_first(), b.drop_first(), c.drop_first());
    }
}

proof fn lemma_bytes_lt_irrefl(a: Seq<u8>)
    ensures
        !bytes_lt(a, a),
    decreases a.len(),
{
    if a.len() > 0 {
        lemma_bytes_lt_irrefl(a.drop_first());
    }
}

proof fn lemma_bytes_lt_skip(a: Seq<u8>, b: Seq<u8>, i: int)
    requires
        0 <= i <= a.len(),
        i <= b.len(),
        forall|j: int| 0 <= j < i ==> a[j] == b[j],
    ensures
        bytes_lt(a, b) == bytes_lt(a.skip(i), b.skip(i)),
    decreases i,
{
    if i > 0 {
        assert(a.drop_first().skip(i - 1) =~= a.skip(i));
        assert(b.drop_first().skip(i - 1) =~= b.skip(i));
        lemma_bytes_lt_skip(a.drop_first(), b.drop_first(), i - 1);
    } else {
        assert(a.skip(0) =~= a);
        assert(b.skip(0) =~= b);
    }
}

/// Whether the byte string `a` comes before `b` (see `bytes_lt`).
pub fn bytes_less(a: &Vec<u8>, b: &Vec<u8>) -> (r: bool)
    ensures
        r == bytes_lt(a@, b@),
{
    let mut i: usize = 0;
    while i < a.len() && i < b.len() && a[i] == b[i]
        invariant
            i <= a@.len(),
            i <= b@.len(),
            forall|j: int| 0 <= j < i ==> a@[j] == b@[j],
        decreases a.len() - i,
    {
        i = i + 1;
    }
    proof {
        lemma_bytes_lt_skip(a@, b@, i as int);
    }
    if i == a.len() {
        i < b.len()
    } else if i == b.len() {
        false
    } else {
        proof {
            assert(a@.skip(i as int)[0] == a@[i as int]);
            assert(b@.skip(i as int)[0] == b@[i as int]);
        }
        a[i] < b[i]
    }
}

/// The byte strings `s` are in strictly increasing order.
pub open spec fn bytes_sorted(s: Seq<Seq<u8>>) -> bool {
    forall|i: int, j: int| 0 <= i < j < s.len() ==> bytes_lt(s[i], s[j])
}

/// The views of the byte strings of `v`.
pub open spec fn bytes_views(v: Seq<Vec<u8>>) -> Seq<Seq<u8>> {
    v.map_values(|b: Vec<u8>| b@)
}

/// The state of generating or mutating a program.
pub struct Context {
    /// Places the pointees of pointer values.
    mem_allocator: Allocator,
    /// Places the pages of vma values.
    vma_allocator: VmaAllocator,
    /// Next available resource id.
    next_res_id: ResValueId,
    /// Kinds of the resources generated, in the order first generated.
    res_kinds: Vec<ResKindId>,
    /// For each kind of `res_kinds`, the ids generated of it, in order.
    res_ids: Vec<Vec<ResValueId>>,
    /// Strings generated.
    strs: Vec<Vec<u8>>,
    /// File names generated, sorted.
    filenames: Vec<Vec<u8>>,
    /// Calls made so far.
    calls: Vec<ParsedCall>,
}

impl Context {
    /// Calls made so far.
    pub closed spec fn spec_calls(&self) -> Seq<ParsedCall> {
        self.calls@
    }

    /// The allocator pointees are placed with.
    pub closed spec fn spec_mem(&self) -> Allocator {
        self.mem_allocator
    }

    /// The allocator vma pages are placed with.
    pub closed spec fn spec_vma(&self) -> VmaAllocator {
        self.vma_allocator
    }

    pub closed spec fn spec_next_res_id(&self) -> nat {
        self.next_res_id as nat
    }

    /// Kinds of the resources generated, in the order first generated.
    pub closed spec fn spec_res_kinds(&self) -> Seq<ResKindId> {
        self.res_kinds@
    }

    /// The ids generated of kind `k`, in order (none for a kind not
    /// generated).
    pub closed spec fn spec_res_ids(&self, k: ResKindId) -> Seq<ResValueId> {
        if self.res_kinds@.contains(k) {
            self.res_ids@[self.res_kinds@.index_of(k)]@
        } else {
            Seq::empty()
        }
    }

    pub closed spec fn spec_strs(&self) -> Seq<Seq<u8>> {
        bytes_views(self.strs@)
    }

    /// File names generated, in the order of byte strings.
    pub closed spec fn spec_filenames(&self) -> Seq<Seq<u8>> {
        bytes_views(self.filenames@)
    }

    /// The kinds are distinct, each has an id list, and the file names are
    /// sorted.
    pub closed spec fn wf(&self) -> bool {
        &&& self.res_ids@.len() == self.res_kinds@.len()
        &&& forall|i: int, j: int| 0 <= i < j < self.res_kinds@.len() ==> self.res_kinds@[i] != self.res_kinds@[j]
        &&& bytes_sorted(bytes_views(self.filenames@))
        &&& self.mem_allocator.wf()
        &&& self.vma_allocator.wf()
    }

    /// An empty context for a data area of `mem_size` bytes and `page_num`
    /// pages.
    pub fn new(mem_size: u64, page_num: u64) -> (r: Self)
        requires
            mem_size <= MAX_MEM_SIZE,
        ensures
            r.wf(),
            r.spec_next_res_id() == 0,
            r.spec_res_kinds() == Seq::<ResKindId>::empty(),
            forall|k: ResKindId| r.spec_res_ids(k) == Seq::<ResValueId>::empty(),
            r.spec_strs() == Seq::<Seq<u8>>::empty(),
            r.spec_filenames() == Seq::<Seq<u8>>::empty(),
            r.spec_calls().len() == 0,
            r.spec_vma().spec_page_num() == page_num,
            r.spec_vma().spec_used() == Seq::<u64>::empty(),
    {
        let r = Context {
            mem_allocator: Allocator::new(mem_size),
            vma_allocator: VmaAllocator::new(page_num),
            next_res_id: 0,
            res_kinds: Vec::new(),
            res_ids: Vec::new(),
            strs: Vec::new(),
            filenames: Vec::new(),
            calls: Vec::new(),
        };
        proof {
            assert(bytes_views(r.strs@) =~= Seq::<Seq<u8>>::empty());
            assert(bytes_views(r.filenames@) =~= Seq::<Seq<u8>>::empty());
        }
        r
    }

    /// The counter fits in a resource id.
    pub proof fn lemma_next_bounded(&self)
        ensures
            self.spec_next_res_id() <= usize::MAX,
    {
    }

    /// Next available resource id.
    pub fn peek_res_id(&self) -> (r: ResValueId)
        ensures
            r == self.spec_next_res_id(),
    {
        self.next_res_id
    }

    /// Kinds of the resources generated, in the order first generated.
    pub fn res(&self) -> (r: &[ResKindId])
        ensures
            r@ == self.spec_res_kinds(),
    {
        self.res_kinds.as_slice()
    }

    /// The ids generated of kind `k` (see `spec_res_ids`).
    pub fn res_ids_of(&self, k: ResKindId) -> (r: &[ResValueId])
        requires
            self.wf(),
        ensures
            r@ == self.spec_res_ids(k),
    {
        let mut i: usize = 0;
        while i < self.res_kinds.len()
            invariant
                i <= self.res_kinds@.len(),
                self.wf(),
                forall|j: int| 0 <= j < i ==> self.res_kinds@[j] != k,
            decreases self.res_kinds.len() - i,
        {
            if self.res_kinds[i] == k {
                proof {
                    self.lemma_index_of(k, i as int);
                }
                return self.res_ids[i].as_slice();
            }
            i = i + 1;
        }
        &[]
    }

    proof fn lemma_index_of(&self, k: ResKindId, i: int)
        requires
            self.wf(),
            0 <= i < self.res_kinds@.len(),
            self.res_kinds@[i] == k,
        ensures
            self.res_kinds@.contains(k),
            self.res_kinds@.index_of(k) == i,
    {
        let j = self.res_kinds@.index_of(k);
        assert(self.res_kinds@.contains(k));
        assert(self.res_kinds@[j] == k);
        if j < i {
            assert(self.res_kinds@[j] != self.res_kinds@[i]);
        } else if j > i {
            assert(self.res_kinds@[i] != self.res_kinds@[j]);
        }
    }

    /// Calls made so far.
    pub fn calls(&self) -> (r: &Vec<ParsedCall>)
        ensures
            r@ == self.spec_calls(),
    {
        &self.calls
    }

    /// Strings generated.
    pub fn strs(&self) -> (r: &Vec<Vec<u8>>)
        ensures
            bytes_views(r@) == self.spec_strs(),
    {
        &self.strs
    }

    /// File names generated, sorted.
    pub fn filenames(&self) -> (r: &Vec<Vec<u8>>)
        ensures
            bytes_views(r@) == self.spec_filenames(),
    {
        &self.filenames
    }

    /// Appends a call.
    pub fn append_call(&mut self, call: ParsedCall)
        ensures
            final(self).spec_calls() == old(self).spec_calls().push(call),
            final(self).spec_next_res_id() == old(self).spec_next_res_id(),
            final(self).spec_res_kinds() == old(self).spec_res_kinds(),
            forall|k: ResKindId| final(self).spec_res_ids(k) == old(self).spec_res_ids(k),
            final(self).spec_strs() == old(self).spec_strs(),
            final(self).spec_filenames() == old(self).spec_filenames(),
            final(self).spec_mem() == old(self).spec_mem(),
            final(self).spec_vma() == old(self).spec_vma(),
            final(self).wf() == old(self).wf(),
    {
        self.calls.push(call);
    }

    /// Gives the next available resource id and moves the counter past it.
    pub fn next_res_id(&mut self) -> (r: ResValueId)
        requires
            old(self).spec_next_res_id() < usize::MAX,
        ensures
            r == old(self).spec_next_res_id(),
            final(self).spec_next_res_id() == old(self).spec_next_res_id() + 1,
            final(self).spec_res_kinds() == old(self).spec_res_kinds(),
            forall|k: ResKindId| final(self).spec_res_ids(k) == old(self).spec_res_ids(k),
            final(self).spec_strs() == old(self).spec_strs(),
            final(self).spec_filenames() == old(self).spec_filenames(),
            final(self).spec_calls() == old(self).spec_calls(),
            final(self).spec_mem() == old(self).spec_mem(),
            final(self).spec_vma() == old(self).spec_vma(),
            final(self).wf() == old(self).wf(),
    {
        let id = self.next_res_id;
        self.next_res_id = id + 1;
        id
    }

    /// Records a generated resource of kind `kind`: the kind is added to the
    /// kinds if it is new, and `id` to its ids.
    pub fn record_res(&mut self, kind: ResKindId, id: ResValueId)
        requires
            old(self).wf(),
        ensures
            final(self).wf(),
            final(self).spec_res_kinds() == if old(self).spec_res_kinds().contains(kind) {
                old(self).spec_res_kinds()
            } else {
                old(self).spec_res_kinds().push(kind)
            },
            final(self).spec_res_ids(kind) == old(self).spec_res_ids(kind).push(id),
            forall|k: ResKindId| k != kind ==> final(self).spec_res_ids(k) == old(self).spec_res_ids(k),
            final(self).spec_next_res_id() == old(self).spec_next_res_id(),
            final(self).spec_strs() == old(self).spec_strs(),
            final(self).spec_filenames() == old(self).spec_filenames(),
            final(self).spec_calls() == old(self).spec_calls(),
            final(self).spec_mem() == old(self).spec_mem(),
            final(self).spec_vma() == old(self).spec_vma(),
    {
        let ghost old_self = *self;
        let mut i: usize = 0;
        while i < self.res_kinds.len()
            invariant
                *self == old_self,
                old_self == *old(self),
                old_self.wf(),
                i <= self.res_kinds@.len(),
                forall|j: int| 0 <= j < i ==> self.res_kinds@[j] != kind,
            decreases self.res_kinds.len() - i,
        {
            if self.res_kinds[i] == kind {
                proof {
                    old_self.lemma_index_of(kind, i as int);
                }
                let mut ids: Vec<ResValueId> = Vec::new();
                self.res_ids.set_and_swap(i, &mut ids);
                ids.push(id);
                self.res_ids.set_and_swap(i, &mut ids);
                proof {
                    assert forall|k: ResKindId| k != kind implies self.spec_res_ids(k) == old_self.spec_res_ids(k) by {
                        if self.res_kinds@.contains(k) {
                            let j = self.res_kinds@.index_of(k);
                            assert(self.res_kinds@[j] == k);
                            assert(j != i);
                        }
                    }
                }
                return;
            }
            i = i + 1;
        }
        proof {
            assert(!old_self.res_kinds@.contains(kind));
        }
        let mut ids: Vec<ResValueId> = Vec::new();
        ids.push(id);
        self.res_kinds.push(kind);
        self.res_ids.push(ids);
        proof {
            let n = old_self.res_kinds@.len() as int;
            self.lemma_index_of(kind, n);
            assert(self.res_ids@[n]@ =~= seq![id]);
            assert(Seq::<ResValueId>::empty().push(id) =~= seq![id]);
            assert forall|k: ResKindId| k != kind implies self.spec_res_ids(k) == old_self.spec_res_ids(k) by {
                if old_self.res_kinds@.contains(k) {
                    let j = old_self.res_kinds@.index_of(k);
                    assert(old_self.res_kinds@[j] == k);
                    self.lemma_index_of(k, j);
                    assert(self.res_kinds@.contains(k));
                } else {
                    assert forall|j: int| 0 <= j < self.res_kinds@.len() implies self.res_kinds@[j] != k by {
                        if j < n {
                            assert(old_self.res_kinds@[j] != k);
                        }
                    }
                    assert(!self.res_kinds@.contains(k));
                }
            }
        }
    }

    /// Records a generated string.
    pub fn record_str(&mut self, val: Vec<u8>)
        ensures
            final(self).spec_strs() == old(self).spec_strs().push(val@),
            final(self).spec_next_res_id() == old(self).spec_next_res_id(),
            final(self).spec_res_kinds() == old(self).spec_res_kinds(),
            forall|k: ResKindId| final(self).spec_res_ids(k) == old(self).spec_res_ids(k),
            final(self).spec_filenames() == old(self).spec_filenames(),
            final(self).spec_calls() == old(self).spec_calls(),
            final(self).wf() == old(self).wf(),
    {
        self.strs.push(val);
        proof {
            assert(bytes_views(self.strs@) =~= bytes_views(old(self).strs@).push(val@));
        }
    }

    /// Records a generated file name: `true` when it is new, and it is then
    /// added at its place in the sorted file names.
    pub fn record_filename(&mut self, val: &Vec<u8>) -> (r: bool)
        requires
            old(self).wf(),
        ensures
            final(self).wf(),
            r == !old(self).spec_filenames().contains(val@),
            final(self).spec_filenames().to_set() == old(self).spec_filenames().to_set().insert(val@),
            !r ==> final(self).spec_filenames() == old(self).spec_filenames(),
            final(self).spec_next_res_id() == old(self).spec_next_res_id(),
            final(self).spec_res_kinds() == old(self).spec_res_kinds(),
            forall|k: ResKindId| final(self).spec_res_ids(k) == old(self).spec_res_ids(k),
            final(self).spec_strs() == old(self).spec_strs(),
            final(self).spec_calls() == old(self).spec_calls(),
    {
        let ghost o = bytes_views(self.filenames@);
        let mut p: usize = 0;
        while p < self.filenames.len() && bytes_less(&self.filenames[p], val)
            invariant
                *self == *old(self),
                o == bytes_views(self.filenames@),
                p <= self.filenames@.len(),
                forall|i: int| 0 <= i < p ==> bytes_lt(o[i], val@),
            decreases self.filenames.len() - p,
        {
            p = p + 1;
        }
        if p < self.filenames.len() && self.filenames[p] == *val {
            proof {
                assert(self.filenames@[p as int]@ == val@);
                assert(o[p as int] == val@);
                assert(o.to_set().insert(val@) =~= o.to_set());
            }
            return false;
        }
        proof {
            assert forall|i: int| p <= i < o.len() implies bytes_lt(val@, o[i]) by {
                assert(o[p as int] != val@) by {
                    if self.filenames@[p as int]@ == val@ {
                        assert(self.filenames@[p as int]@ =~= val@);
                    }
                }
                lemma_bytes_lt_total(o[p as int], val@);
                if i > p {
                    lemma_bytes_lt_trans(val@, o[p as int], o[i]);
                }
            }
            assert forall|i: int| 0 <= i < o.len() implies o[i] != val@ by {
                if i < p {
                    lemma_bytes_lt_irrefl(val@);
                } else {
                    lemma_bytes_lt_irrefl(val@);
                }
            }
        }
        let v = val.clone();
        assert(v@ == val@);
        self.filenames.insert(p, v);
        proof {
            let n = bytes_views(self.filenames@);
            assert(n =~= o.insert(p as int, val@));
            assert forall|i: int, j: int| 0 <= i < j < n.len() implies bytes_lt(n[i], n[j]) by {
                if i < p && j == p {
                } else if i == p {
                    assert(n[j] == o[j - 1]);
                } else if j < p {
                } else if i < p {
                    assert(n[j] == o[j - 1]);
                    lemma_bytes_lt_trans(o[i], val@, o[j - 1]);
                } else {
                    assert(n[i] == o[i - 1]);
                    assert(n[j] == o[j - 1]);
                }
            }
            assert(!o.contains(val@));
            assert forall|x: Seq<u8>| n.to_set().contains(x) == o.to_set().insert(val@).contains(x) by {
                if n.contains(x) {
                    let i = choose|i: int| 0 <= i < n.len() && n[i] == x;
                    if i < p {
                        assert(o[i] == x);
                    } else if i > p {
                        assert(o[i - 1] == x);
                    }
                }
                if o.contains(x) {
                    let i = choose|i: int| 0 <= i < o.len() && o[i] == x;
                    if i < p {
                        assert(n[i] == x);
                    } else {
                        assert(n[i + 1] == x);
                    }
                }
                if x == val@ {
                    assert(n[p as int] == x);
                }
            }
            assert(n.to_set() =~= o.to_set().insert(val@));
        }
        true
    }
}

} // verus!

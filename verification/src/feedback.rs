//! Coverage feedback: which covered edges are new.
use crate::hashed::{u32_items, u32_set_contains, u32_set_extend, u32_set_insert, u32_set_len, u32_set_new};
use ahash::AHashSet;
use vstd::prelude::*;

verus! {

/// The edges ever covered (`max_cov`) and those covered again when a
/// program was rerun (`cal_cov`, calibrated coverage).
pub struct Feedback {
    max_cov: AHashSet<u32>,
    cal_cov: AHashSet<u32>,
}

impl View for Feedback {
    /// (edges ever covered, calibrated edges)
    type V = (Set<u32>, Set<u32>);

    closed spec fn view(&self) -> (Set<u32>, Set<u32>) {
        (u32_items(self.max_cov), u32_items(self.cal_cov))
    }
}

/// The edges of `cov` not in `known`.
pub open spec fn new_cover(known: Set<u32>, cov: Seq<u32>) -> Set<u32> {
    cov.to_set().difference(known)
}

/// Edges reported new are then known: the same coverage has nothing new
/// the second time.
pub proof fn lemma_no_new_cover_twice(known: Set<u32>, cov: Seq<u32>)
    ensures
        new_cover(known.union(new_cover(known, cov)), cov) == Set::<u32>::empty(),
{
    assert(new_cover(known.union(new_cover(known, cov)), cov) =~= Set::<u32>::empty());
}

impl Feedback {
    /// Both sets of edges are finite.
    pub closed spec fn wf(&self) -> bool {
        u32_items(self.max_cov).finite() && u32_items(self.cal_cov).finite()
    }

    /// No edge covered yet.
    pub fn new() -> (r: Self)
        ensures
            r.wf(),
            r@.0 == Set::<u32>::empty(),
            r@.1 == Set::<u32>::empty(),
    {
        Feedback { max_cov: u32_set_new(), cal_cov: u32_set_new() }
    }

    fn check_inner(known: &AHashSet<u32>, cov: &[u32]) -> (r: AHashSet<u32>)
        ensures
            u32_items(r) == new_cover(u32_items(*known), cov@),
            u32_items(r).finite(),
    {
        let mut new = u32_set_new();
        let mut i: usize = 0;
        proof {
            assert(cov@.take(0).to_set() =~= Set::<u32>::empty());
            assert(new_cover(u32_items(*known), cov@.take(0)) =~= Set::<u32>::empty());
        }
        while i < cov.len()
            invariant
                i <= cov@.len(),
                u32_items(new) == new_cover(u32_items(*known), cov@.take(i as int)),
                u32_items(new).finite(),
            decreases cov.len() - i,
        {
            let c = cov[i];
            if !u32_set_contains(known, c) {
                u32_set_insert(&mut new, c);
            }
            proof {
                assert(cov@.take(i + 1) =~= cov@.take(i as int).push(c));
                cov@.take(i as int).lemma_push_to_set_commute(c);
                assert(u32_items(new) =~= new_cover(u32_items(*known), cov@.take(i + 1)));
            }
            i = i + 1;
        }
        proof {
            assert(cov@.take(i as int) =~= cov@);
        }
        new
    }

    /// The edges of `cov` never covered before; they are then known.
    pub fn check_max_cov(&mut self, cov: &[u32]) -> (r: AHashSet<u32>)
        requires
            old(self).wf(),
        ensures
            final(self).wf(),
            u32_items(r) == new_cover(old(self)@.0, cov@),
            u32_items(r).finite(),
            final(self)@.0 == old(self)@.0.union(u32_items(r)),
            final(self)@.1 == old(self)@.1,
    {
        let new = Self::check_inner(&self.max_cov, cov);
        if u32_set_len(&new) > 0 {
            u32_set_extend(&mut self.max_cov, &new);
        } else {
            proof {
                assert(u32_items(new) =~= Set::<u32>::empty());
                assert(u32_items(self.max_cov).union(u32_items(new)) =~= u32_items(self.max_cov));
            }
        }
        new
    }

    /// The edges of `cov` not calibrated yet.
    pub fn check_cal_cov(&self, cov: &[u32]) -> (r: AHashSet<u32>)
        requires
            self.wf(),
        ensures
            u32_items(r) == new_cover(self@.1, cov@),
            u32_items(r).finite(),
    {
        Self::check_inner(&self.cal_cov, cov)
    }

    /// Adds edges to both the edges ever covered and the calibrated ones.
    pub fn merge(&mut self, new: &AHashSet<u32>)
        requires
            old(self).wf(),
            u32_items(*new).finite(),
        ensures
            final(self).wf(),
            final(self)@.0 == old(self)@.0.union(u32_items(*new)),
            final(self)@.1 == old(self)@.1.union(u32_items(*new)),
    {
        u32_set_extend(&mut self.max_cov, new);
        u32_set_extend(&mut self.cal_cov, new);
    }

    /// Number of edges ever covered.
    pub fn max_cov_len(&self) -> (r: usize)
        requires
            self.wf(),
        ensures
            r == self@.0.len(),
    {
        u32_set_len(&self.max_cov)
    }

    /// Number of calibrated edges.
    pub fn cal_cov_len(&self) -> (r: usize)
        requires
            self.wf(),
        ensures
            r == self@.1.len(),
    {
        u32_set_len(&self.cal_cov)
    }
}

} // verus!

//! Generation of values and the choice helpers it uses.
pub mod group;
pub mod integer;
pub mod res;

use crate::rng::rand_in_range;
use rand::rngs::SmallRng;
use vstd::prelude::*;

verus! {

/// Shortest program length favored by generation.
pub const FAVORED_MIN_PROG_LEN: usize = 16;

/// Longest program length favored by generation (exclusive).
pub const FAVORED_MAX_PROG_LEN: usize = 25;

/// The weights are cumulative: non-decreasing, the last one positive.
pub open spec fn weights_ok(w: Seq<u64>) -> bool {
    &&& w.len() > 0
    &&& w.last() > 0
    &&& forall|i: int, j: int| 0 <= i <= j < w.len() ==> w[i] <= w[j]
}

/// The own weight of item `i`: the step of the cumulative weight there.
pub open spec fn own_weight(w: Seq<u64>, i: int) -> int {
    if i == 0 {
        w[0] as int
    } else {
        w[i] - w[i - 1]
    }
}

/// Number of weights at most `n`.
pub open spec fn count_le(w: Seq<u64>, n: int) -> nat
    decreases w.len(),
{
    if w.len() == 0 {
        0
    } else {
        count_le(w.drop_last(), n) + if w.last() <= n {
            1nat
        } else {
            0nat
        }
    }
}

/// The index `weights` picks for a draw `n`: the number of cumulative
/// weights at most `n`.
pub fn weighted_index(weights: &[u64], n: u64) -> (r: usize)
    requires
        weights_ok(weights@),
    ensures
        r == count_le(weights@, n as int),
        r < weights@.len() ==> weights@[r as int] > n,
        r > 0 ==> weights@[r - 1] <= n,
{
    let mut i: usize = 0;
    while i < weights.len() && weights[i] <= n
        invariant
            i <= weights@.len(),
            weights_ok(weights@),
            forall|j: int| 0 <= j < i ==> weights@[j] <= n,
        decreases weights.len() - i,
    {
        i = i + 1;
    }
    proof {
        lemma_count_le_prefix(weights@, n as int, i as int);
    }
    i
}

/// With non-decreasing weights, the weights at most `n` are the first `k` when
/// the `k`-th (if any) exceeds `n`.
proof fn lemma_count_le_prefix(w: Seq<u64>, n: int, k: int)
    requires
        forall|i: int, j: int| 0 <= i <= j < w.len() ==> w[i] <= w[j],
        0 <= k <= w.len(),
        forall|j: int| 0 <= j < k ==> w[j] <= n,
        k < w.len() ==> w[k] > n,
    ensures
        count_le(w, n) == k,
    decreases w.len(),
{
    if w.len() > 0 {
        let d = w.drop_last();
        assert(forall|j: int| 0 <= j < d.len() ==> d[j] == w[j]);
        if k == w.len() {
            assert(w[k - 1] <= n);
            lemma_count_le_prefix(d, n, k - 1);
        } else {
            assert(w.last() > n) by {
                if k < w.len() - 1 {
                    assert(w[k] <= w[w.len() - 1]);
                }
            }
            if k < d.len() {
                assert(d[k] > n);
            }
            lemma_count_le_prefix(d, n, k);
        }
    }
}

/// Picks an index with probability proportional to its own weight (the
/// step of its cumulative weight): draws `n` below the last weight and
/// returns the number of weights at most `n`. An item of weight 0 is never
/// picked.
pub fn choose_weighted(rng: &mut SmallRng, weights: &[u64]) -> (r: usize)
    requires
        weights_ok(weights@),
    ensures
        r < weights@.len(),
        own_weight(weights@, r as int) > 0,
        exists|n: int| 0 <= n < weights@.last() && r == count_le(weights@, n),
{
    let max = weights[weights.len() - 1];
    let n = rand_in_range(rng, 0, max - 1);
    let r = weighted_index(weights, n);
    proof {
        lemma_count_le_bound(weights@, n as int);
    }
    r
}

proof fn lemma_count_le_bound(w: Seq<u64>, n: int)
    requires
        weights_ok(w),
        n < w.last(),
    ensures
        count_le(w, n) < w.len(),
{
    lemma_count_le_at_most(w.drop_last(), n);
}

proof fn lemma_count_le_at_most(w: Seq<u64>, n: int)
    ensures
        count_le(w, n) <= w.len(),
    decreases w.len(),
{
    if w.len() > 0 {
        lemma_count_le_at_most(w.drop_last(), n);
    }
}

/// Lengths of generated programs cycle through a range, starting at the
/// favored minimum.
pub struct ProgLenState {
    pub next: usize,
    /// Range of lengths, `(start, end)` with `end` exclusive.
    pub range: (usize, usize),
}

impl ProgLenState {
    /// Starts at the favored minimum, in the favored range.
    pub fn new() -> (r: Self)
        ensures
            r.next == FAVORED_MIN_PROG_LEN,
            r.range == (FAVORED_MIN_PROG_LEN, FAVORED_MAX_PROG_LEN),
    {
        ProgLenState { next: FAVORED_MIN_PROG_LEN, range: (FAVORED_MIN_PROG_LEN, FAVORED_MAX_PROG_LEN) }
    }

    /// Sets the range of program lengths.
    pub fn set_prog_len_range(&mut self, start: usize, end: usize)
        ensures
            final(self).range == (start, end),
            final(self).next == old(self).next,
    {
        self.range = (start, end);
    }

    /// The range of program lengths.
    pub fn prog_len_range(&self) -> (r: (usize, usize))
        ensures
            r == self.range,
    {
        self.range
    }

    /// The next length: the current one, which then moves up by one and
    /// wraps to the favored minimum at the end of the range.
    pub fn next_prog_len(&mut self) -> (r: usize)
        requires
            old(self).next < usize::MAX,
        ensures
            r == old(self).next,
            final(self).range == old(self).range,
            final(self).next == (if old(self).next + 1 >= old(self).range.1 {
                FAVORED_MIN_PROG_LEN as int
            } else {
                old(self).next + 1
            }),
    {
        let len = self.next;
        let mut new_len = len + 1;
        if new_len >= self.range.1 {
            new_len = FAVORED_MIN_PROG_LEN;
        }
        self.next = new_len;
        len
    }
}

} // verus!

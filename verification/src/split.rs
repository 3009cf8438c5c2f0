//! Splitting a total into a given number of near-equal parts.
use vstd::prelude::*;

verus! {

/// Yields `n` parts of a total, each `total / n` or one more; the larger ones
/// come first.
pub struct Split {
    base: usize,
    n: usize,
    left: usize,
}

impl View for Split {
    /// (size of the smaller parts, parts still to come, larger parts still to come)
    type V = (nat, nat, nat);

    closed spec fn view(&self) -> (nat, nat, nat) {
        (self.base as nat, self.n as nat, self.left as nat)
    }
}

/// What the parts still to come add up to.
pub open spec fn split_remaining(v: (nat, nat, nat)) -> int {
    (v.0 * v.1 + v.2) as int
}

/// The parts still to come, in order.
pub open spec fn split_parts(v: (nat, nat, nat)) -> Seq<nat> {
    Seq::new(v.1, |i: int| if i < v.2 { v.0 + 1 } else { v.0 })
}

impl Split {
    /// Internal consistency: no more larger parts than parts, and what they
    /// add up to fits in `usize`.
    pub closed spec fn wf(self) -> bool {
        &&& self.left <= self.n
        &&& self.base * self.n + self.left <= usize::MAX
    }

    /// Splits `total` into `n` parts.
    pub fn new(total: usize, n: usize) -> (s: Split)
        requires
            0 < n <= total,
        ensures
            s.wf(),
            s@ == (total as nat / n as nat, n as nat, total as nat % n as nat),
            split_remaining(s@) == total,
    {
        let base = total / n;
        let left = total % n;
        proof {
            vstd::arithmetic::div_mod::lemma_fundamental_div_mod(total as int, n as int);
            assert(base * n == n * base) by (nonlinear_arith);
        }
        Split { base, n, left }
    }

    /// The next part: `None` once all `n` were given; the larger parts come
    /// first. What the rest adds up to drops by the part given.
    pub fn next(&mut self) -> (r: Option<usize>)
        requires
            old(self).wf(),
        ensures
            final(self).wf(),
            old(self)@.1 == 0 ==> r is None && final(self)@ == old(self)@,
            old(self)@.1 > 0 ==> {
                &&& r == Some((if old(self)@.2 > 0 { old(self)@.0 + 1 } else { old(self)@.0 }) as usize)
                &&& final(self)@ == (old(self)@.0, (old(self)@.1 - 1) as nat, (if old(self)@.2 > 0 { old(self)@.2 - 1 } else { 0 }) as nat)
                &&& split_remaining(final(self)@) + r->0 == split_remaining(old(self)@)
                &&& split_parts(final(self)@) == split_parts(old(self)@).drop_first()
                &&& r->0 == split_parts(old(self)@)[0]
            },
    {
        if self.n == 0 {
            None
        } else {
            let ghost b = self.base as int;
            let ghost n = self.n as int;
            proof {
                assert(b * n == b * (n - 1) + b) by (nonlinear_arith);
                assert(b * (n - 1) >= 0) by (nonlinear_arith)
                    requires
                        b >= 0,
                        n >= 1,
                ;
            }
            self.n = self.n - 1;
            let r = if self.left != 0 {
                self.left = self.left - 1;
                self.base + 1
            } else {
                self.base
            };
            proof {
                let o = split_parts(old(self)@);
                let f = split_parts(self@);
                assert(f =~= o.drop_first());
            }
            Some(r)
        }
    }

    /// What all parts still to come add up to.
    pub fn sum(self) -> (r: usize)
        requires
            self.wf(),
        ensures
            r == split_remaining(self@),
    {
        let mut s = self;
        let mut acc: usize = 0;
        while s.n > 0
            invariant
                s.wf(),
                acc + split_remaining(s@) == split_remaining(self@),
                split_remaining(self@) <= usize::MAX,
            decreases s@.1,
        {
            let p = s.next();
            match p {
                Some(v) => {
                    acc = acc + v;
                },
                None => {},
            }
        }
        proof {
            assert(s@.0 * s@.1 == 0) by (nonlinear_arith)
                requires
                    s@.1 == 0,
            ;
        }
        acc
    }

    /// All parts still to come, in order.
    pub fn to_vec(self) -> (r: Vec<usize>)
        requires
            self.wf(),
        ensures
            r@.len() == self@.1,
            forall|i: int| 0 <= i < r@.len() ==> r@[i] == #[trigger] split_parts(self@)[i],
    {
        let mut s = self;
        let mut out: Vec<usize> = Vec::new();
        while s.n > 0
            invariant
                s.wf(),
                out@.len() + s@.1 == self@.1,
                s@.0 == self@.0,
                split_parts(s@) =~= split_parts(self@).skip(out@.len() as int),
                forall|i: int| 0 <= i < out@.len() ==> out@[i] == #[trigger] split_parts(self@)[i],
            decreases s@.1,
        {
            let ghost before = split_parts(s@);
            let p = s.next();
            match p {
                Some(v) => {
                    proof {
                        assert(split_parts(self@).skip(out@.len() as int)[0] == split_parts(self@)[out@.len() as int]);
                    }
                    out.push(v);
                },
                None => {},
            }
        }
        out
    }
}

/// The parts of a split add up to the total, and there are as many as asked.
pub proof fn lemma_split_parts_total(total: nat, n: nat)
    requires
        0 < n <= total,
    ensures
        split_remaining((total / n, n, total % n)) == total,
        split_parts((total / n, n, total % n)).len() == n,
        forall|i: int| 0 <= i < n ==> total / n <= #[trigger] split_parts((total / n, n, total % n))[i] <= total / n + 1,
{
    vstd::arithmetic::div_mod::lemma_fundamental_div_mod(total as int, n as int);
    assert((total / n) * n == n * (total / n)) by (nonlinear_arith);
}

} // verus!

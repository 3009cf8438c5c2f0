//! Sets of ids kept as strictly increasing vectors.
use vstd::prelude::*;

verus! {

/// The ids are strictly increasing, so each occurs once.
pub open spec fn strictly_sorted(s: Seq<usize>) -> bool {
    forall|i: int, j: int| 0 <= i < j < s.len() ==> s[i] < s[j]
}

/// Index of the first element not below `x`.
fn lower_bound(v: &Vec<usize>, x: usize) -> (r: usize)
    requires
        strictly_sorted(v@),
    ensures
        r <= v@.len(),
        forall|i: int| 0 <= i < r ==> v@[i] < x,
        forall|i: int| r <= i < v@.len() ==> v@[i] >= x,
{
    let mut lo: usize = 0;
    let mut hi: usize = v.len();
    while lo < hi
        invariant
            lo <= hi <= v@.len(),
            strictly_sorted(v@),
            forall|i: int| 0 <= i < lo ==> v@[i] < x,
            forall|i: int| hi <= i < v@.len() ==> v@[i] >= x,
        decreases hi - lo,
    {
        let mid = lo + (hi - lo) / 2;
        if v[mid] < x {
            lo = mid + 1;
        } else {
            hi = mid;
        }
    }
    lo
}

/// Whether the set holds `x`.
pub fn contains_sorted(v: &Vec<usize>, x: usize) -> (r: bool)
    requires
        strictly_sorted(v@),
    ensures
        r == v@.contains(x),
{
    let i = lower_bound(v, x);
    if i < v.len() && v[i] == x {
        true
    } else {
        proof {
            if v@.contains(x) {
                let j = choose|j: int| 0 <= j < v@.len() && v@[j] == x;
                assert(j >= i);
                if j > i {
                    assert(v@[i as int] < v@[j]);
                }
            }
        }
        false
    }
}

/// Adds `x` to the set.
pub fn insert_sorted(v: &mut Vec<usize>, x: usize)
    requires
        strictly_sorted(old(v)@),
    ensures
        strictly_sorted(final(v)@),
        final(v)@.to_set() == old(v)@.to_set().insert(x),
{
    let i = lower_bound(v, x);
    if i < v.len() && v[i] == x {
        assert(old(v)@.to_set().insert(x) =~= old(v)@.to_set());
        return;
    }
    v.insert(i, x);
    proof {
        let o = old(v)@;
        let n = v@;
        assert(n =~= o.subrange(0, i as int).push(x) + o.subrange(i as int, o.len() as int));
        assert forall|a: int, b: int| 0 <= a < b < n.len() implies n[a] < n[b] by {
            if b < i {
            } else if b == i {
            } else if a < i {
            } else if a == i {
                assert(n[b] == o[b - 1]);
            } else {
                assert(n[a] == o[a - 1] && n[b] == o[b - 1]);
            }
        }
        assert forall|y: usize| n.to_set().contains(y) <==> o.to_set().insert(x).contains(y) by {
            if n.contains(y) {
                let k = choose|k: int| 0 <= k < n.len() && n[k] == y;
                if k < i {
                    assert(o[k] == y);
                } else if k > i {
                    assert(o[k - 1] == y);
                }
            }
            if o.contains(y) {
                let k = choose|k: int| 0 <= k < o.len() && o[k] == y;
                if k < i {
                    assert(n[k] == y);
                } else {
                    assert(n[k + 1] == y);
                }
            }
            if y == x {
                assert(n[i as int] == x);
            }
        }
        assert(n.to_set() =~= o.to_set().insert(x));
    }
}

/// `s` with `x` taken out where it occurs (at most once in a strictly
/// sorted sequence); the others keep their order.
pub open spec fn without(s: Seq<usize>, x: usize) -> Seq<usize> {
    if s.contains(x) {
        s.remove(choose|i: int| 0 <= i < s.len() && s[i] == x)
    } else {
        s
    }
}

/// Removes `x` from the set.
pub fn remove_sorted(v: &mut Vec<usize>, x: usize)
    requires
        strictly_sorted(old(v)@),
    ensures
        strictly_sorted(final(v)@),
        final(v)@.to_set() == old(v)@.to_set().remove(x),
        final(v)@ == without(old(v)@, x),
{
    let i = lower_bound(v, x);
    if i < v.len() && v[i] == x {
        v.remove(i);
        proof {
            let o = old(v)@;
            let n = v@;
            assert(n =~= o.subrange(0, i as int) + o.subrange(i as int + 1, o.len() as int));
            assert forall|a: int, b: int| 0 <= a < b < n.len() implies n[a] < n[b] by {
                if b < i {
                } else if a < i {
                    assert(n[b] == o[b + 1]);
                } else {
                    assert(n[a] == o[a + 1] && n[b] == o[b + 1]);
                }
            }
            assert forall|y: usize| n.to_set().contains(y) <==> o.to_set().remove(x).contains(y) by {
                if n.contains(y) {
                    let k = choose|k: int| 0 <= k < n.len() && n[k] == y;
                    if k < i {
                        assert(o[k] == y);
                        assert(o[k] < o[i as int]);
                    } else {
                        assert(o[k + 1] == y);
                        assert(o[i as int] < o[k + 1]);
                    }
                }
                if o.contains(y) && y != x {
                    let k = choose|k: int| 0 <= k < o.len() && o[k] == y;
                    if k < i {
                        assert(n[k] == y);
                    } else {
                        assert(k != i);
                        assert(n[k - 1] == y);
                    }
                }
            }
            assert(n.to_set() =~= o.to_set().remove(x));
            assert(o[i as int] == x);
            let c = choose|c: int| 0 <= c < o.len() && o[c] == x;
            if c < i {
                assert(o[c] < o[i as int]);
            } else if c > i {
                assert(o[i as int] < o[c]);
            }
            assert(n =~= o.remove(i as int));
        }
    } else {
        proof {
            if old(v)@.contains(x) {
                let j = choose|j: int| 0 <= j < old(v)@.len() && old(v)@[j] == x;
                assert(j >= i);
                if j > i {
                    assert(old(v)@[i as int] < old(v)@[j]);
                }
            }
            assert(old(v)@.to_set().remove(x) =~= old(v)@.to_set());
        }
    }
}

/// Two strictly sorted sequences with the same elements are equal.
pub proof fn lemma_sorted_set_eq(a: Seq<usize>, b: Seq<usize>)
    requires
        strictly_sorted(a),
        strictly_sorted(b),
        a.to_set() == b.to_set(),
    ensures
        a == b,
    decreases a.len(),
{
    if a.len() == 0 {
        if b.len() > 0 {
            assert(b.to_set().contains(b[0]));
        }
        assert(a =~= b);
    } else {
        assert(a.to_set().contains(a[0]));
        assert(b.contains(a[0]));
        assert(b.len() > 0);
        assert(b.to_set().contains(b[0]));
        assert(a.contains(b[0]));
        let i = choose|i: int| 0 <= i < b.len() && b[i] == a[0];
        let j = choose|j: int| 0 <= j < a.len() && a[j] == b[0];
        if i > 0 {
            assert(b[0] < b[i]);
            if j > 0 {
                assert(a[0] < a[j]);
            }
        }
        if j > 0 {
            assert(a[0] < a[j]);
        }
        assert(a[0] == b[0]);
        let a1 = a.drop_first();
        let b1 = b.drop_first();
        assert forall|y: usize| a1.to_set().contains(y) <==> b1.to_set().contains(y) by {
            if a1.contains(y) {
                let k = choose|k: int| 0 <= k < a1.len() && a1[k] == y;
                assert(a[k + 1] == y);
                assert(a[0] < a[k + 1]);
                assert(b.to_set().contains(y));
                let m = choose|m: int| 0 <= m < b.len() && b[m] == y;
                assert(m != 0);
                assert(b1[m - 1] == y);
            }
            if b1.contains(y) {
                let k = choose|k: int| 0 <= k < b1.len() && b1[k] == y;
                assert(b[k + 1] == y);
                assert(b[0] < b[k + 1]);
                assert(a.to_set().contains(y));
                let m = choose|m: int| 0 <= m < a.len() && a[m] == y;
                assert(m != 0);
                assert(a1[m - 1] == y);
            }
        }
        assert(a1.to_set() =~= b1.to_set());
        lemma_sorted_set_eq(a1, b1);
        assert(a =~= seq![a[0]] + a1);
        assert(b =~= seq![b[0]] + b1);
    }
}

/// Taking `x` out of a strictly sorted sequence keeps it strictly sorted
/// and takes `x` out of its elements.
pub proof fn lemma_without(s: Seq<usize>, x: usize)
    requires
        strictly_sorted(s),
    ensures
        strictly_sorted(without(s, x)),
        without(s, x).to_set() == s.to_set().remove(x),
{
    if s.contains(x) {
        let i = choose|i: int| 0 <= i < s.len() && s[i] == x;
        let n = s.remove(i);
        assert forall|a: int, b: int| 0 <= a < b < n.len() implies n[a] < n[b] by {
            if b < i {
            } else if a < i {
                assert(n[b] == s[b + 1]);
            } else {
                assert(n[a] == s[a + 1] && n[b] == s[b + 1]);
            }
        }
        assert forall|y: usize| n.to_set().contains(y) <==> s.to_set().remove(x).contains(y) by {
            if n.contains(y) {
                let k = choose|k: int| 0 <= k < n.len() && n[k] == y;
                if k < i {
                    assert(s[k] == y);
                    assert(s[k] < s[i]);
                } else {
                    assert(s[k + 1] == y);
                    assert(s[i] < s[k + 1]);
                }
            }
            if s.contains(y) && y != x {
                let k = choose|k: int| 0 <= k < s.len() && s[k] == y;
                if k < i {
                    assert(n[k] == y);
                } else {
                    assert(k != i);
                    assert(n[k - 1] == y);
                }
            }
        }
        assert(n.to_set() =~= s.to_set().remove(x));
    } else {
        assert(s.to_set().remove(x) =~= s.to_set());
    }
}

} // verus!

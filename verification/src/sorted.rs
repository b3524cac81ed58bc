//! Sets as strictly increasing lists.

use vstd::prelude::*;

verus! {

pub open spec fn increasing(s: Seq<usize>) -> bool {
    forall|i: int, j: int| 0 <= i < j < s.len() ==> s[i] < s[j]
}

/// A strictly increasing list is determined by the set of its elements.
pub proof fn lemma_increasing_unique(a: Seq<usize>, b: Seq<usize>)
    requires
        increasing(a),
        increasing(b),
        forall|x: usize| a.contains(x) <==> b.contains(x),
    ensures
        a == b,
    decreases a.len(),
{
    if a.len() == 0 {
        if b.len() > 0 {
            assert(b.contains(b[0]));
            assert(a.contains(b[0]));
        }
    } else {
        assert(a.contains(a.last()));
        assert(b.contains(a.last()));
        assert(b.len() > 0);
        assert(b.contains(b.last()));
        assert(a.contains(b.last()));
        let p = choose|p: int| 0 <= p < a.len() && a[p] == b.last();
        let q = choose|q: int| 0 <= q < b.len() && b[q] == a.last();
        assert(a.last() == b.last()) by {
            if p < a.len() - 1 {
                assert(a[p] < a[a.len() - 1]);
            }
            if q < b.len() - 1 {
                assert(b[q] < b[b.len() - 1]);
            }
        }
        let a1 = a.drop_last();
        let b1 = b.drop_last();
        assert forall|x: usize| a1.contains(x) <==> b1.contains(x) by {
            if a1.contains(x) {
                let i = choose|i: int| 0 <= i < a1.len() && a1[i] == x;
                assert(a[i] == x && a[i] < a[a.len() - 1]);
                assert(a.contains(x));
                assert(b.contains(x));
                let j = choose|j: int| 0 <= j < b.len() && b[j] == x;
                assert(j < b.len() - 1);
                assert(b1[j] == x);
            }
            if b1.contains(x) {
                let i = choose|i: int| 0 <= i < b1.len() && b1[i] == x;
                assert(b[i] == x && b[i] < b[b.len() - 1]);
                assert(b.contains(x));
                assert(a.contains(x));
                let j = choose|j: int| 0 <= j < a.len() && a[j] == x;
                assert(j < a.len() - 1);
                assert(a1[j] == x);
            }
        }
        lemma_increasing_unique(a1, b1);
        assert(a =~= a1.push(a.last()));
        assert(b =~= b1.push(b.last()));
    }
}

/// Position of the first element that is at least `x`.
fn lower_bound(v: &Vec<usize>, x: usize) -> (p: usize)
    requires
        increasing(v@),
    ensures
        p <= v@.len(),
        forall|i: int| 0 <= i < p ==> v@[i] < x,
        forall|i: int| p <= i < v@.len() ==> v@[i] >= x,
{
    let mut lo: usize = 0;
    let mut hi: usize = v.len();
    while lo < hi
        invariant
            lo <= hi <= v@.len(),
            increasing(v@),
            forall|i: int| 0 <= i < lo ==> v@[i] < x,
            forall|i: int| hi <= i < v@.len() ==> v@[i] >= x,
        decreases hi - lo,
    {
        let mid: usize = lo + (hi - lo) / 2;
        if v[mid] < x {
            lo = mid + 1;
        } else {
            hi = mid;
        }
    }
    lo
}

/// Whether `x` is in the list.
pub fn member(v: &Vec<usize>, x: usize) -> (found: bool)
    requires
        increasing(v@),
    ensures
        found == v@.contains(x),
{
    let p: usize = lower_bound(v, x);
    if p < v.len() && v[p] == x {
        true
    } else {
        proof {
            if v@.contains(x) {
                let i = choose|i: int| 0 <= i < v@.len() && v@[i] == x;
                assert(i >= p);
                assert(v@[p as int] >= x);
                if i > p {
                    assert(v@[p as int] < v@[i]);
                }
            }
        }
        false
    }
}

/// Adds `x` to the list.
pub fn insert(v: &mut Vec<usize>, x: usize)
    requires
        increasing(old(v)@),
    ensures
        increasing(final(v)@),
        forall|y: usize|
            #![trigger final(v)@.contains(y)]
            #![trigger old(v)@.contains(y)]
            final(v)@.contains(y) <==> old(v)@.contains(y) || y == x,
{
    let p: usize = lower_bound(v, x);
    let ghost before = v@;
    if p < v.len() && v[p] == x {
        assert(before.contains(x));
        return ;
    }
    v.insert(p, x);
    proof {
        assert(v@ =~= before.insert(p as int, x));
        assert forall|y: usize|
            #![trigger v@.contains(y)]
            #![trigger before.contains(y)]
            v@.contains(y) <==> before.contains(y) || y == x by {
            if v@.contains(y) && y != x {
                let i = choose|i: int| 0 <= i < v@.len() && v@[i] == y;
                if i < p {
                    assert(before[i] == y);
                } else {
                    assert(before[i - 1] == y);
                }
            }
            if before.contains(y) {
                let i = choose|i: int| 0 <= i < before.len() && before[i] == y;
                if i < p {
                    assert(v@[i] == y);
                } else {
                    assert(v@[i + 1] == y);
                }
            }
            assert(v@[p as int] == x);
        }
    }
}

/// All elements of two lists.
pub fn union(a: &Vec<usize>, b: &Vec<usize>) -> (v: Vec<usize>)
    requires
        increasing(a@),
        increasing(b@),
    ensures
        increasing(v@),
        forall|y: usize| #[trigger] v@.contains(y) <==> a@.contains(y) || b@.contains(y),
{
    let mut v: Vec<usize> = Vec::new();
    let mut i: usize = 0;
    let mut j: usize = 0;
    while i < a.len() || j < b.len()
        invariant
            i <= a@.len(),
            j <= b@.len(),
            increasing(a@),
            increasing(b@),
            increasing(v@),
            forall|k: int, p: int|
                0 <= k < v@.len() && i <= p < a@.len() ==> #[trigger] v@[k] < #[trigger] a@[p],
            forall|k: int, p: int|
                0 <= k < v@.len() && j <= p < b@.len() ==> #[trigger] v@[k] < #[trigger] b@[p],
            forall|k: int|
                0 <= k < v@.len() ==> a@.contains(#[trigger] v@[k]) || b@.contains(v@[k]),
            forall|p: int| 0 <= p < i ==> v@.contains(#[trigger] a@[p]),
            forall|p: int| 0 <= p < j ==> v@.contains(#[trigger] b@[p]),
        decreases a@.len() - i + b@.len() - j,
    {
        let ghost before = v@;
        let ghost (i0, j0) = (i as int, j as int);
        let take_a: bool = j >= b.len() || (i < a.len() && a[i] <= b[j]);
        let take_b: bool = i >= a.len() || (j < b.len() && b[j] <= a[i]);
        let x: usize = if take_a {
            a[i]
        } else {
            b[j]
        };
        v.push(x);
        if take_a {
            i = i + 1;
        }
        if take_b {
            j = j + 1;
        }
        proof {
            assert(v@[before.len() as int] == x);
            assert forall|p: int| 0 <= p < i implies v@.contains(#[trigger] a@[p]) by {
                if p < i0 {
                    assert(before.contains(a@[p]));
                    let q = choose|q: int| 0 <= q < before.len() && before[q] == a@[p];
                    assert(v@[q] == a@[p]);
                } else {
                    assert(a@[p] == x);
                }
            }
            assert forall|p: int| 0 <= p < j implies v@.contains(#[trigger] b@[p]) by {
                if p < j0 {
                    assert(before.contains(b@[p]));
                    let q = choose|q: int| 0 <= q < before.len() && before[q] == b@[p];
                    assert(v@[q] == b@[p]);
                } else {
                    assert(b@[p] == x);
                }
            }
            if take_a {
                assert(a@.contains(a@[i0]));
            } else {
                assert(b@.contains(b@[j0]));
            }
        }
    }
    proof {
        assert forall|y: usize| #[trigger] v@.contains(y) <==> a@.contains(y) || b@.contains(y) by {
            if v@.contains(y) {
                let k = choose|k: int| 0 <= k < v@.len() && v@[k] == y;
            }
            if a@.contains(y) {
                let k = choose|k: int| 0 <= k < a@.len() && a@[k] == y;
                assert(v@.contains(a@[k]));
            }
            if b@.contains(y) {
                let k = choose|k: int| 0 <= k < b@.len() && b@[k] == y;
                assert(v@.contains(b@[k]));
            }
        }
    }
    v
}

/// Order of pairs: by the first element, then by the second.
pub open spec fn pair_less(a: (usize, usize), b: (usize, usize)) -> bool {
    a.0 < b.0 || (a.0 == b.0 && a.1 < b.1)
}

pub open spec fn pairs_increasing(s: Seq<(usize, usize)>) -> bool {
    forall|i: int, j: int| 0 <= i < j < s.len() ==> pair_less(#[trigger] s[i], #[trigger] s[j])
}

/// Adds a pair to the list.
pub fn insert_pair(v: &mut Vec<(usize, usize)>, x: (usize, usize))
    requires
        pairs_increasing(old(v)@),
    ensures
        pairs_increasing(final(v)@),
        forall|y: (usize, usize)|
            #![trigger final(v)@.contains(y)]
            #![trigger old(v)@.contains(y)]
            final(v)@.contains(y) <==> old(v)@.contains(y) || y == x,
{
    let ghost before = v@;
    let mut lo: usize = 0;
    let mut hi: usize = v.len();
    while lo < hi
        invariant
            lo <= hi <= v@.len(),
            v@ == before,
            pairs_increasing(v@),
            forall|i: int| 0 <= i < lo ==> pair_less(#[trigger] v@[i], x),
            forall|i: int| hi <= i < v@.len() ==> !pair_less(#[trigger] v@[i], x),
        decreases hi - lo,
    {
        let mid: usize = lo + (hi - lo) / 2;
        let m: (usize, usize) = v[mid];
        if m.0 < x.0 || (m.0 == x.0 && m.1 < x.1) {
            lo = mid + 1;
        } else {
            hi = mid;
        }
    }
    let p: usize = lo;
    if p < v.len() && v[p].0 == x.0 && v[p].1 == x.1 {
        assert(before[p as int] == x);
        assert(before.contains(x));
        return ;
    }
    v.insert(p, x);
    proof {
        assert(v@ =~= before.insert(p as int, x));
        assert forall|i: int, j: int| 0 <= i < j < v@.len() implies pair_less(
            #[trigger] v@[i],
            #[trigger] v@[j],
        ) by {
            let bi = if i < p {
                i
            } else {
                i - 1
            };
            let bj = if j < p {
                j
            } else {
                j - 1
            };
            if i != p && j != p {
                assert(pair_less(before[bi], before[bj]));
            } else if i == p {
                assert(!pair_less(before[p as int], x));
                if bj > p {
                    assert(pair_less(before[p as int], before[bj]));
                }
            } else {
                assert(pair_less(before[bi], x));
            }
        }
        assert forall|y: (usize, usize)|
            #![trigger v@.contains(y)]
            #![trigger before.contains(y)]
            v@.contains(y) <==> before.contains(y) || y == x by {
            if v@.contains(y) && y != x {
                let i = choose|i: int| 0 <= i < v@.len() && v@[i] == y;
                if i < p {
                    assert(before[i] == y);
                } else {
                    assert(before[i - 1] == y);
                }
            }
            if before.contains(y) {
                let i = choose|i: int| 0 <= i < before.len() && before[i] == y;
                if i < p {
                    assert(v@[i] == y);
                } else {
                    assert(v@[i + 1] == y);
                }
            }
            assert(v@[p as int] == x);
        }
    }
}

} // verus!

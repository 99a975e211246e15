//! Sorting numbers: ascending by `cmp`, numbers that compare equal kept in
//! the order they came in (a stable sort). Where decimals and floats are
//! sorted together, each comparison of a decimal with a float converts the
//! decimal anew, by a call whose result is not fixed; the order is then not
//! claimed, only that the numbers are rearranged.
use crate::number::{converts, lemma_compare_antisymmetric, order, Number};
use core::cmp::Ordering;
use vstd::prelude::*;

verus! {

/// The number at `k` is not above the next one.
pub open spec fn adjacent_in_order(s: Seq<Number>, k: int) -> bool {
    order(s[k], s[k + 1], 0) <= 0
}

/// Each number is not above the next.
pub open spec fn in_order(s: Seq<Number>) -> bool {
    forall|k: int| 0 <= k < s.len() - 1 ==> #[trigger] adjacent_in_order(s, k)
}

/// Where the numbers at `k` and `k + 1` compare equal, they came in that order.
pub open spec fn keeps_order(s: Seq<Number>, p: Seq<int>, k: int) -> bool {
    order(s[k], s[k + 1], 0) == 0 ==> p[k] < p[k + 1]
}

/// `s` holds no decimal or no float, so no comparison among its numbers
/// converts a decimal.
pub open spec fn without_conversions(s: Seq<Number>) -> bool {
    (forall|k: int| 0 <= k < s.len() ==> !(#[trigger] s[k] is Decimal)) || (forall|k: int|
        0 <= k < s.len() ==> !(#[trigger] s[k] is Float))
}

/// `p` is a permutation of `0..n`.
pub open spec fn is_permutation(p: Seq<int>, n: nat) -> bool {
    &&& p.len() == n
    &&& forall|k: int| 0 <= k < n ==> 0 <= #[trigger] p[k] < n
    &&& forall|k: int, l: int| 0 <= k < l < n ==> #[trigger] p[k] != #[trigger] p[l]
}

/// `out` holds at `k` the number that `input` holds at `p[k]`, and keeps
/// the order of the numbers that compare equal.
pub open spec fn sorted_by(input: Seq<Number>, out: Seq<Number>, p: Seq<int>) -> bool {
    &&& is_permutation(p, input.len())
    &&& out.len() == input.len()
    &&& forall|k: int| 0 <= k < out.len() ==> out[k] == input[#[trigger] p[k]]
    &&& forall|k: int| 0 <= k < out.len() - 1 ==> #[trigger] keeps_order(out, p, k)
}

/// `out` holds the numbers of `input`, rearranged.
pub open spec fn rearranged(input: Seq<Number>, out: Seq<Number>) -> bool {
    exists|p: Seq<int>|
        #![trigger is_permutation(p, input.len())]
        is_permutation(p, input.len()) && out.len() == input.len() && forall|k: int|
            0 <= k < out.len() ==> out[k] == input[#[trigger] p[k]]
}

/// `out` is `input` sorted stably.
pub open spec fn stably_sorted(input: Seq<Number>, out: Seq<Number>) -> bool {
    &&& in_order(out)
    &&& exists|p: Seq<int>| #[trigger] sorted_by(input, out, p)
}

/// The pair at `k` is in order and keeps the order of equal numbers.
spec fn pair_ok(s: Seq<Number>, p: Seq<int>, k: int) -> bool {
    adjacent_in_order(s, k) && keeps_order(s, p, k)
}

/// `a` is above `b` by `cmp`.
fn above(a: &Number, b: &Number) -> (r: bool)
    ensures
        !converts(*a, *b) ==> r == (order(*a, *b, 0) > 0),
{
    match a.cmp(b) {
        Ordering::Greater => true,
        _ => false,
    }
}

/// Sorts the numbers ascending by `cmp` (`Sort::sorted`, which `Vec::sort`
/// does): stable, by insertion. The numbers are always rearranged, and sorted
/// stably wherever no decimal meets a float.
pub fn sort_numbers(v: &mut Vec<Number>)
    ensures
        rearranged(old(v)@, final(v)@),
        without_conversions(old(v)@) ==> stably_sorted(old(v)@, final(v)@),
{
    let ghost input = v@;
    let ghost nc = without_conversions(input);
    let n = v.len();
    let ghost mut p: Seq<int> = Seq::new(n as nat, |k: int| k);
    let mut i: usize = 0;
    while i < n
        invariant
            n == v@.len() == input.len(),
            i <= n,
            p.len() == n,
            forall|k: int| 0 <= k < n ==> v@[k] == input[#[trigger] p[k]],
            forall|k: int| 0 <= k < i ==> 0 <= #[trigger] p[k] < i,
            forall|k: int| i <= k < n ==> #[trigger] p[k] == k,
            forall|k: int, l: int| 0 <= k < l < i ==> #[trigger] p[k] != #[trigger] p[l],
            nc == without_conversions(input),
            nc ==> without_conversions(v@),
            nc ==> forall|k: int| 0 <= k < i - 1 ==> #[trigger] pair_ok(v@, p, k),
        decreases n - i,
    {
        let mut j: usize = i;
        while j > 0 && above(&v[j - 1], &v[j])
            invariant
                n == v@.len() == input.len(),
                j <= i < n,
                p.len() == n,
                forall|k: int| 0 <= k < n ==> v@[k] == input[#[trigger] p[k]],
                p[j as int] == i,
                forall|k: int| 0 <= k <= i && k != j ==> 0 <= #[trigger] p[k] < i,
                forall|k: int| i < k < n ==> #[trigger] p[k] == k,
                forall|k: int, l: int| 0 <= k < l <= i ==> #[trigger] p[k] != #[trigger] p[l],
                nc == without_conversions(input),
                nc ==> without_conversions(v@),
                nc ==> forall|k: int| 0 <= k < j - 1 ==> #[trigger] pair_ok(v@, p, k),
                nc ==> forall|k: int| j + 1 <= k < i ==> #[trigger] pair_ok(v@, p, k),
                nc ==> (j < i ==> order(v@[j as int], v@[j + 1], 0) < 0),
                nc ==> (0 < j < i ==> order(v@[j - 1], v@[j + 1], 0) <= 0 && (order(
                    v@[j - 1],
                    v@[j + 1],
                    0,
                ) == 0 ==> p[j - 1] < p[j + 1])),
            decreases j,
        {
            let ghost v0 = v@;
            let ghost p0 = p;
            let a = v[j - 1];
            let b = v[j];
            proof {
                lemma_compare_antisymmetric(a, b, 0);
            }
            v.set(j - 1, b);
            v.set(j, a);
            proof {
                p = p0.update(j - 1, p0[j as int]).update(j as int, p0[j - 1]);
                if nc {
                    assert(without_conversions(v@)) by {
                        assert forall|k: int| 0 <= k < n implies v@[k] == v0[k] || v@[k] == v0[j - 1]
                            || v@[k] == v0[j as int] by {}
                    }
                    assert(!converts(v0[j - 1], v0[j as int]));
                    assert forall|k: int| 0 <= k < j - 2 implies #[trigger] pair_ok(v@, p, k) by {
                        assert(pair_ok(v0, p0, k));
                    }
                    assert forall|k: int| j <= k < i implies #[trigger] pair_ok(v@, p, k) by {
                        if k > j {
                            assert(pair_ok(v0, p0, k));
                        }
                    }
                    if j >= 2 {
                        assert(pair_ok(v0, p0, j - 2));
                    }
                }
                assert forall|k: int| 0 <= k < n implies v@[k] == input[#[trigger] p[k]] by {
                    if k != j - 1 && k != j {
                        assert(v@[k] == v0[k]);
                    }
                }
                assert forall|k: int, l: int| 0 <= k < l <= i implies #[trigger] p[k] != #[trigger] p[l] by {
                    let k0 = if k == j - 1 { j as int } else if k == j { j - 1 } else { k };
                    let l0 = if l == j - 1 { j as int } else if l == j { j - 1 } else { l };
                    if k0 < l0 {
                        assert(p0[k0] != p0[l0]);
                    } else {
                        assert(p0[l0] != p0[k0]);
                    }
                }
            }
            j = j - 1;
        }
        proof {
            if j > 0 {
                lemma_compare_antisymmetric(v@[j - 1], v@[j as int], 0);
            }
            if nc {
                if j > 0 {
                    assert(!converts(v@[j - 1], v@[j as int]));
                }
                assert forall|k: int| 0 <= k < i implies #[trigger] pair_ok(v@, p, k) by {
                    if k == j - 1 {
                        assert(p[k] < i);
                    } else if k == j {
                    } else if k < j - 1 {
                    } else {
                    }
                }
            }
            assert forall|k: int| 0 <= k < i + 1 implies 0 <= #[trigger] p[k] < i + 1 by {
                if k != j {
                    assert(0 <= p[k] < i);
                }
            }
        }
        i = i + 1;
    }
    proof {
        assert(is_permutation(p, input.len()));
        assert(forall|k: int| 0 <= k < v@.len() ==> v@[k] == input[#[trigger] p[k]]);
        assert(rearranged(input, v@));
        if nc {
            assert forall|k: int| 0 <= k < v@.len() - 1 implies #[trigger] adjacent_in_order(v@, k)
                && keeps_order(v@, p, k) by {
                assert(pair_ok(v@, p, k));
            }
            assert forall|k: int| 0 <= k < v@.len() - 1 implies #[trigger] keeps_order(v@, p, k) by {
                assert(pair_ok(v@, p, k));
            }
            assert(sorted_by(input, v@, p));
        }
    }
}

/// A value whose items have been sorted.
pub struct Sorted<T>(pub T);

/// Sorting in place.
pub trait Sort {
    fn sorted(&mut self) -> Sorted<&Self> where Self: Sized;
}

impl Sort for Vec<Number> {
    /// Sorts the numbers (`sort_numbers`) and hands them back.
    fn sorted(&mut self) -> (r: Sorted<&Vec<Number>>)
        ensures
            rearranged(old(self)@, final(self)@),
            without_conversions(old(self)@) ==> stably_sorted(old(self)@, final(self)@),
            r.0@ == final(self)@,
    {
        sort_numbers(self);
        Sorted(self)
    }
}

} // verus!

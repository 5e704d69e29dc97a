//! Rounding a value to the nearest member of an ascending list.

use vstd::prelude::*;

verus! {

/// Distance between two integers.
pub open spec fn dist(a: int, b: int) -> int {
    if a >= b {
        a - b
    } else {
        b - a
    }
}

/// `s` is in ascending order (equal neighbours allowed).
pub open spec fn is_ascending(s: Seq<int>) -> bool {
    forall|i: int, j: int| 0 <= i <= j < s.len() ==> s[i] <= s[j]
}

/// `r` is a member of `s` nearest to `t`; of two members equally near, `r` is
/// the smaller one.
pub open spec fn is_closest(s: Seq<int>, t: int, r: int) -> bool {
    &&& exists|i: int| 0 <= i < s.len() && s[i] == r
    &&& forall|i: int| 0 <= i < s.len() ==> dist(#[trigger] s[i], t) >= dist(r, t)
    &&& forall|i: int| 0 <= i < s.len() && #[trigger] s[i] < r ==> dist(s[i], t) > dist(r, t)
}

/// A target has one nearest member, ties going to the smaller: `is_closest`
/// determines its result.
pub proof fn lemma_closest_unique(s: Seq<int>, t: int, r1: int, r2: int)
    requires
        is_closest(s, t, r1),
        is_closest(s, t, r2),
    ensures
        r1 == r2,
{
    let i1 = choose|i: int| 0 <= i < s.len() && s[i] == r1;
    let i2 = choose|i: int| 0 <= i < s.len() && s[i] == r2;
    assert(dist(s[i1], t) >= dist(r2, t));
    assert(dist(s[i2], t) >= dist(r1, t));
}

/// The members of a slice of `u128`, as integers.
pub open spec fn ints(s: Seq<u128>) -> Seq<int> {
    s.map_values(|e: u128| e as int)
}

/// Index of the first element strictly greater than `target`, if any.
pub fn get_lower_bound_index(elements: &[u128], target: u128) -> (r: Option<usize>)
    ensures
        match r {
            None => forall|j: int| 0 <= j < elements@.len() ==> elements@[j] <= target,
            Some(i) => {
                &&& i < elements@.len()
                &&& elements@[i as int] > target
                &&& forall|j: int| 0 <= j < i ==> elements@[j] <= target
            },
        },
{
    let mut index: usize = 0;
    while index < elements.len()
        invariant
            index <= elements@.len(),
            forall|j: int| 0 <= j < index ==> elements@[j] <= target,
        decreases elements@.len() - index,
    {
        if elements[index] > target {
            return Some(index);
        }
        index += 1;
    }
    None
}

/// The element of an ascending, non-empty slice nearest to `target`, ties
/// going to the smaller element.
pub fn pick_closest(elements: &[u128], target: u128) -> (r: u128)
    requires
        elements@.len() > 0,
        is_ascending(ints(elements@)),
    ensures
        is_closest(ints(elements@), target as int, r as int),
{
    let ghost s = ints(elements@);
    let ghost t = target as int;
    assert(s.len() == elements@.len());
    assert(forall|j: int| 0 <= j < s.len() ==> s[j] == elements@[j] as int);
    match get_lower_bound_index(elements, target) {
        None => {
            let last = elements.len() - 1;
            let r = elements[last];
            assert(s[last as int] == r);
            assert forall|j: int| 0 <= j < s.len() implies dist(#[trigger] s[j], t) >= dist(r as int, t)
                && (s[j] < r ==> dist(s[j], t) > dist(r as int, t)) by {
                assert(s[j] <= s[last as int]);
            }
            r
        },
        Some(index) => {
            if index == 0 {
                let r = elements[0];
                assert(s[0] == r);
                assert forall|j: int| 0 <= j < s.len() implies dist(#[trigger] s[j], t) >= dist(r as int, t)
                    && (s[j] < r ==> dist(s[j], t) > dist(r as int, t)) by {
                    assert(s[0] <= s[j]);
                }
                r
            } else {
                let lo = elements[index - 1];
                let hi = elements[index];
                assert(s[index - 1] == lo && s[index as int] == hi);
                if hi - target < target - lo {
                    assert forall|j: int| 0 <= j < s.len() implies dist(#[trigger] s[j], t) >= dist(hi as int, t)
                        && (s[j] < hi ==> dist(s[j], t) > dist(hi as int, t)) by {
                        if j < index {
                            assert(s[j] <= s[index - 1]);
                        } else {
                            assert(s[index as int] <= s[j]);
                        }
                    }
                    hi
                } else {
                    assert forall|j: int| 0 <= j < s.len() implies dist(#[trigger] s[j], t) >= dist(lo as int, t)
                        && (s[j] < lo ==> dist(s[j], t) > dist(lo as int, t)) by {
                        if j < index {
                            assert(s[j] <= s[index - 1]);
                        } else {
                            assert(s[index as int] <= s[j]);
                        }
                    }
                    lo
                }
            }
        },
    }
}

} // verus!

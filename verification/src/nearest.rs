//! Resolving the true nearest hit among the candidates that the acceleration
//! structure hands out. The structure orders candidates by a heuristic on
//! their bounding volumes, so the first candidate need not be the nearest:
//! every candidate's distance is compared.
//!
//! A distance is given as a key: an unsigned integer that grows with the
//! distance. A candidate that the ray misses, or whose intersection is
//! degenerate, has no key.
//! A caller that measures distances as binary64 numbers gets the keys from
//! `keys::distance_key`.

use vstd::prelude::*;

verus! {

/// No candidate is hit.
pub open spec fn no_hit(distances: Seq<Option<u64>>) -> bool {
    forall|j: int| 0 <= j < distances.len() ==> (#[trigger] distances[j]) is None
}

/// Candidate `i` is hit, no candidate is hit nearer, and every candidate
/// before `i` that is hit lies strictly farther.
pub open spec fn is_nearest(distances: Seq<Option<u64>>, i: int) -> bool {
    &&& 0 <= i < distances.len()
    &&& distances[i] is Some
    &&& forall|j: int|
        0 <= j < distances.len() && (#[trigger] distances[j]) is Some ==> {
            &&& distances[i]->Some_0 <= distances[j]->Some_0
            &&& j < i ==> distances[i]->Some_0 < distances[j]->Some_0
        }
}

/// The distance of the nearest hit, if any candidate is hit.
pub open spec fn nearest_distance(distances: Seq<Option<u64>>) -> Option<u64> {
    if exists|i: int| is_nearest(distances, i) {
        distances[choose|i: int| is_nearest(distances, i)]
    } else {
        None
    }
}

/// Picks the candidate with the least distance among those that are hit, the
/// earliest of them where several are equally near. Returns `None` exactly
/// when no candidate is hit.
pub fn nearest_hit(distances: &Vec<Option<u64>>) -> (r: Option<usize>)
    ensures
        r is None ==> no_hit(distances@),
        r is Some ==> is_nearest(distances@, r->Some_0 as int),
{
    let mut best: Option<usize> = None;
    let mut best_distance: u64 = 0;
    let mut k: usize = 0;
    while k < distances.len()
        invariant
            k <= distances.len(),
            match best {
                None => no_hit(distances@.take(k as int)),
                Some(i) => i < k && is_nearest(distances@.take(k as int), i as int)
                    && distances@[i as int] == Some(best_distance),
            },
        decreases distances.len() - k,
    {
        let ghost seen = distances@.take(k as int);
        let ghost grown = distances@.take(k as int + 1);
        assert(forall|j: int| 0 <= j < k ==> grown[j] == seen[j]);
        assert(grown[k as int] == distances@[k as int]);
        match distances[k] {
            None => {},
            Some(d) => {
                match best {
                    None => {
                        best = Some(k);
                        best_distance = d;
                    },
                    Some(_) => {
                        if d < best_distance {
                            best = Some(k);
                            best_distance = d;
                        }
                    },
                }
            },
        }
        k = k + 1;
    }
    assert(distances@.take(k as int) == distances@);
    best
}

/// At most one candidate is the nearest.
pub proof fn lemma_nearest_is_unique(distances: Seq<Option<u64>>, i: int, j: int)
    requires
        is_nearest(distances, i),
        is_nearest(distances, j),
    ensures
        i == j,
{
}

/// Either no candidate is hit or exactly one is the nearest; never both.
pub proof fn lemma_nearest_or_no_hit(distances: Seq<Option<u64>>, i: int)
    requires
        is_nearest(distances, i),
    ensures
        !no_hit(distances),
        nearest_distance(distances) == distances[i],
{
    let c = choose|c: int| is_nearest(distances, c);
    lemma_nearest_is_unique(distances, i, c);
}

/// Where the ray hits only candidate `k`, candidate `k` is the nearest,
/// wherever it stands among the candidates and however many there are.
pub proof fn lemma_only_hit_is_nearest(distances: Seq<Option<u64>>, k: int)
    requires
        0 <= k < distances.len(),
        distances[k] is Some,
        forall|j: int| 0 <= j < distances.len() && j != k ==> (#[trigger] distances[j]) is None,
    ensures
        is_nearest(distances, k),
        nearest_distance(distances) == distances[k],
{
    lemma_nearest_or_no_hit(distances, k);
}

/// The nearest distance does not depend on the order in which the candidates
/// come: two lists of the same candidates have the same nearest distance.
pub proof fn lemma_nearest_distance_ignores_order(a: Seq<Option<u64>>, b: Seq<Option<u64>>)
    requires
        a.to_multiset() == b.to_multiset(),
    ensures
        nearest_distance(a) == nearest_distance(b),
{
    a.to_multiset_ensures();
    b.to_multiset_ensures();
    if exists|i: int| is_nearest(a, i) {
        let i = choose|i: int| is_nearest(a, i);
        lemma_least_is_shared(a, b, i);
        let j = choose|j: int| is_nearest(b, j);
        lemma_least_is_shared(b, a, j);
    } else if exists|j: int| is_nearest(b, j) {
        let j = choose|j: int| is_nearest(b, j);
        lemma_least_is_shared(b, a, j);
    }
}

/// If `a` has a nearest hit and `b` holds the same candidates, `b` has a
/// nearest hit too, and it is no farther.
proof fn lemma_least_is_shared(a: Seq<Option<u64>>, b: Seq<Option<u64>>, i: int)
    requires
        a.to_multiset() == b.to_multiset(),
        is_nearest(a, i),
    ensures
        exists|j: int| is_nearest(b, j),
        forall|j: int| is_nearest(b, j) ==> b[j]->Some_0 <= a[i]->Some_0,
{
    a.to_multiset_ensures();
    b.to_multiset_ensures();
    assert(a.contains(a[i]));
    assert(a.to_multiset().count(a[i]) > 0);
    assert(b.to_multiset().count(a[i]) > 0);
    assert(b.contains(a[i]));
    let w = choose|w: int| 0 <= w < b.len() && b[w] == a[i];
    assert(b[w] is Some);
    lemma_some_hit_has_nearest(b, b.len() as int);
    assert(b.take(b.len() as int) == b);
}

/// A list in which some candidate is hit has a nearest hit.
proof fn lemma_some_hit_has_nearest(s: Seq<Option<u64>>, n: int)
    requires
        0 <= n <= s.len(),
    ensures
        no_hit(s.take(n)) || exists|i: int| is_nearest(s.take(n), i),
    decreases n,
{
    if n > 0 {
        lemma_some_hit_has_nearest(s, n - 1);
        let seen = s.take(n - 1);
        let grown = s.take(n);
        assert(forall|j: int| 0 <= j < n - 1 ==> grown[j] == seen[j]);
        if s[n - 1] is None {
            if no_hit(seen) {
                assert(no_hit(grown));
            } else {
                let i = choose|i: int| is_nearest(seen, i);
                assert(is_nearest(grown, i));
            }
        } else {
            if no_hit(seen) {
                assert(is_nearest(grown, n - 1));
            } else {
                let i = choose|i: int| is_nearest(seen, i);
                if s[n - 1]->Some_0 < seen[i]->Some_0 {
                    assert(is_nearest(grown, n - 1));
                } else {
                    assert(is_nearest(grown, i));
                }
            }
        }
    }
}

} // verus!

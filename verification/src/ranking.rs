use vstd::prelude::*;
use crate::entries::{distinct_paths, has_path, lemma_position, position};

verus! {

/// Weights never rise along the sequence.
pub open spec fn descending(r: Seq<(Seq<char>, u64)>) -> bool {
    forall|i: int, j: int| 0 <= i < j < r.len() ==> r[i].1 >= r[j].1
}

/// Where an entry of weight `weight` goes in `r`: just behind the last entry
/// that is at least as heavy.
pub open spec fn boundary(r: Seq<(Seq<char>, u64)>, weight: u64) -> int
    decreases r.len(),
{
    if r.len() == 0 {
        0
    } else if r.last().1 >= weight {
        r.len() as int
    } else {
        boundary(r.drop_last(), weight)
    }
}

/// `r` with `e` put at its boundary.
pub open spec fn place(r: Seq<(Seq<char>, u64)>, e: (Seq<char>, u64)) -> Seq<(Seq<char>, u64)> {
    r.insert(boundary(r, e.1), e)
}

/// The entries of `s` by falling weight; entries of equal weight keep the
/// order that they have in `s`.
pub open spec fn ranked(s: Seq<(Seq<char>, u64)>) -> Seq<(Seq<char>, u64)>
    decreases s.len(),
{
    if s.len() == 0 {
        s
    } else {
        place(ranked(s.drop_last()), s.last())
    }
}

/// `r` holds exactly the entries of `s`, by falling weight, and entries of
/// equal weight stand in `r` as they stand in `s`.
pub open spec fn is_ranking(r: Seq<(Seq<char>, u64)>, s: Seq<(Seq<char>, u64)>) -> bool {
    &&& r.len() == s.len()
    &&& distinct_paths(r)
    &&& forall|k: int| 0 <= k < s.len() ==> r.contains(#[trigger] s[k])
    &&& forall|i: int| 0 <= i < r.len() ==> s.contains(#[trigger] r[i])
    &&& descending(r)
    &&& forall|i: int, j: int|
        0 <= i < j < r.len() && r[i].1 == r[j].1 ==> position(s, r[i].0) < position(s, r[j].0)
}

/// The boundary lies inside the sequence, everything from it on is lighter
/// than `weight`, and the entry before it is not.
pub proof fn lemma_boundary(r: Seq<(Seq<char>, u64)>, weight: u64)
    ensures
        0 <= boundary(r, weight) <= r.len(),
        forall|q: int| boundary(r, weight) <= q < r.len() ==> r[q].1 < weight,
        boundary(r, weight) > 0 ==> r[boundary(r, weight) - 1].1 >= weight,
    decreases r.len(),
{
    if r.len() > 0 && r.last().1 < weight {
        let front = r.drop_last();
        lemma_boundary(front, weight);
        assert forall|q: int| boundary(r, weight) <= q < r.len() implies r[q].1 < weight by {
            if q < front.len() {
                assert(front[q] == r[q]);
            }
        }
    }
}

/// The boundary is the one place with lighter entries behind it and an entry
/// at least as heavy before it.
pub proof fn lemma_boundary_unique(r: Seq<(Seq<char>, u64)>, weight: u64, p: int)
    requires
        0 <= p <= r.len(),
        forall|q: int| p <= q < r.len() ==> r[q].1 < weight,
        p > 0 ==> r[p - 1].1 >= weight,
    ensures
        boundary(r, weight) == p,
    decreases r.len(),
{
    if r.len() > 0 && r.last().1 < weight {
        let front = r.drop_last();
        assert forall|q: int| p <= q < front.len() implies front[q].1 < weight by {}
        lemma_boundary_unique(front, weight, p);
    }
}

/// Placing an entry keeps weights falling.
proof fn lemma_place_descending(r: Seq<(Seq<char>, u64)>, e: (Seq<char>, u64))
    requires
        descending(r),
    ensures
        descending(place(r, e)),
{
    lemma_boundary(r, e.1);
}

/// Placing an entry with a new path keeps paths distinct.
proof fn lemma_place_distinct(r: Seq<(Seq<char>, u64)>, e: (Seq<char>, u64))
    requires
        distinct_paths(r),
        !has_path(r, e.0),
    ensures
        distinct_paths(place(r, e)),
{
    lemma_boundary(r, e.1);
}

/// After placing `e` into a ranking of `t`, every entry of `t` followed by `e`
/// is there, and nothing else.
proof fn lemma_place_members(
    r: Seq<(Seq<char>, u64)>,
    t: Seq<(Seq<char>, u64)>,
    e: (Seq<char>, u64),
)
    requires
        r.len() == t.len(),
        forall|k: int| 0 <= k < t.len() ==> r.contains(#[trigger] t[k]),
        forall|i: int| 0 <= i < r.len() ==> t.contains(#[trigger] r[i]),
    ensures
        place(r, e).len() == t.push(e).len(),
        forall|k: int| 0 <= k < t.push(e).len() ==> place(r, e).contains(#[trigger] t.push(e)[k]),
        forall|i: int| 0 <= i < place(r, e).len() ==> t.push(e).contains(#[trigger] place(r, e)[i]),
{
    let p = boundary(r, e.1);
    let out = place(r, e);
    let s = t.push(e);
    lemma_boundary(r, e.1);
    assert forall|k: int| 0 <= k < s.len() implies out.contains(#[trigger] s[k]) by {
        if k == t.len() {
            assert(out[p] == e);
        } else {
            let i = choose|i: int| 0 <= i < r.len() && r[i] == t[k];
            if i < p {
                assert(out[i] == s[k]);
            } else {
                assert(out[i + 1] == s[k]);
            }
        }
    }
    assert forall|i: int| 0 <= i < out.len() implies s.contains(#[trigger] out[i]) by {
        if i == p {
            assert(s[t.len() as int] == e);
        } else {
            let a = if i < p { i } else { i - 1 };
            let k = choose|k: int| 0 <= k < t.len() && t[k] == r[a];
            assert(s[k] == out[i]);
        }
    }
}

/// After placing `e` into a ranking of `t`, entries of equal weight stand as
/// they stand in `t` followed by `e`.
proof fn lemma_place_stable(
    r: Seq<(Seq<char>, u64)>,
    t: Seq<(Seq<char>, u64)>,
    e: (Seq<char>, u64),
)
    requires
        distinct_paths(t.push(e)),
        forall|i: int| 0 <= i < r.len() ==> t.contains(#[trigger] r[i]),
        forall|i: int, j: int|
            0 <= i < j < r.len() && r[i].1 == r[j].1 ==> position(t, r[i].0) < position(t, r[j].0),
    ensures
        forall|i: int, j: int|
            0 <= i < j < place(r, e).len() && place(r, e)[i].1 == place(r, e)[j].1 ==> position(
                t.push(e),
                place(r, e)[i].0,
            ) < position(t.push(e), place(r, e)[j].0),
{
    let p = boundary(r, e.1);
    let out = place(r, e);
    let s = t.push(e);
    let n = t.len() as int;
    lemma_boundary(r, e.1);
    lemma_position(s, e.0, n);
    assert(distinct_paths(t)) by {
        assert forall|i: int, j: int| 0 <= i < j < t.len() implies t[i].0 != t[j].0 by {
            assert(s[i].0 != s[j].0);
        }
    }
    assert forall|i: int| 0 <= i < r.len() implies position(s, (#[trigger] r[i]).0) == position(
        t,
        r[i].0,
    ) && position(t, r[i].0) < n by {
        let k = choose|k: int| 0 <= k < t.len() && t[k] == r[i];
        lemma_position(t, r[i].0, k);
        lemma_position(s, r[i].0, k);
    }
    assert forall|i: int, j: int|
        0 <= i < j < out.len() && out[i].1 == out[j].1 implies position(s, out[i].0) < position(
        s,
        out[j].0,
    ) by {}
}

/// The ranking of a sequence of entries with distinct paths meets
/// [`is_ranking`].
pub proof fn lemma_ranked(s: Seq<(Seq<char>, u64)>)
    requires
        distinct_paths(s),
    ensures
        is_ranking(ranked(s), s),
    decreases s.len(),
{
    if s.len() > 0 {
        let t = s.drop_last();
        let e = s.last();
        let r = ranked(t);
        assert(t.push(e) =~= s);
        assert(distinct_paths(t)) by {
            assert forall|i: int, j: int| 0 <= i < j < t.len() implies t[i].0 != t[j].0 by {}
        }
        lemma_ranked(t);
        // an entry of `r` with the path of `e` would be an entry of `t` with it
        assert(!has_path(r, e.0)) by {
            if has_path(r, e.0) {
                let i = position(r, e.0);
                let k = choose|k: int| 0 <= k < t.len() && t[k] == r[i];
            }
        }
        lemma_place_descending(r, e);
        lemma_place_distinct(r, e);
        lemma_place_members(r, t, e);
        lemma_place_stable(r, t, e);
    }
}

/// Two rankings of the same entries agree on their first `k` places.
proof fn lemma_rankings_agree(
    r1: Seq<(Seq<char>, u64)>,
    r2: Seq<(Seq<char>, u64)>,
    s: Seq<(Seq<char>, u64)>,
    k: int,
)
    requires
        is_ranking(r1, s),
        is_ranking(r2, s),
        0 <= k <= s.len(),
    ensures
        forall|i: int| 0 <= i < k ==> r1[i] == r2[i],
    decreases k,
{
    // Were the two to differ at place `k - 1`, each would hold the other's
    // entry at a later place, and each of the two entries would come before
    // the other.
    if k > 0 {
        lemma_rankings_agree(r1, r2, s, k - 1);
    }
}

/// There is one ranking of a sequence of entries with distinct paths:
/// whatever meets [`is_ranking`] is [`ranked`].
pub proof fn lemma_ranking_unique(r: Seq<(Seq<char>, u64)>, s: Seq<(Seq<char>, u64)>)
    requires
        distinct_paths(s),
        is_ranking(r, s),
    ensures
        r == ranked(s),
{
    lemma_ranked(s);
    lemma_rankings_agree(r, ranked(s), s, s.len() as int);
}

} // verus!

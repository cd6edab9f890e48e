use vstd::prelude::*;

verus! {

/// What a list of stored entries stands for: each path as its code points,
/// beside its weight, in the order of first insertion.
pub open spec fn model(list: Seq<(String, u64)>) -> Seq<(Seq<char>, u64)> {
    list.map_values(|e: (String, u64)| (e.0@, e.1))
}

/// No path occurs twice.
pub open spec fn distinct_paths(s: Seq<(Seq<char>, u64)>) -> bool {
    forall|i: int, j: int| 0 <= i < j < s.len() ==> s[i].0 != s[j].0
}

/// `path` is the key of some entry.
pub open spec fn has_path(s: Seq<(Seq<char>, u64)>, path: Seq<char>) -> bool {
    exists|i: int| 0 <= i < s.len() && (#[trigger] s[i]).0 == path
}

/// The place of the entry for `path`, where there is one.
pub open spec fn position(s: Seq<(Seq<char>, u64)>, path: Seq<char>) -> int {
    choose|i: int| 0 <= i < s.len() && (#[trigger] s[i]).0 == path
}

/// The weight stored for `path`; zero for a path that has no entry.
pub open spec fn weight_of(s: Seq<(Seq<char>, u64)>, path: Seq<char>) -> u64 {
    if has_path(s, path) {
        s[position(s, path)].1
    } else {
        0
    }
}

/// The entries after `path` is given `weight`: its entry is rewritten in
/// place, or a new entry is added at the end.
pub open spec fn upsert(s: Seq<(Seq<char>, u64)>, path: Seq<char>, weight: u64) -> Seq<
    (Seq<char>, u64),
> {
    if has_path(s, path) {
        s.update(position(s, path), (path, weight))
    } else {
        s.push((path, weight))
    }
}

/// The entries as a map from path to weight.
pub open spec fn as_map(s: Seq<(Seq<char>, u64)>) -> Map<Seq<char>, u64> {
    Map::new(|p: Seq<char>| has_path(s, p), |p: Seq<char>| weight_of(s, p))
}

/// Where paths are distinct, the place of a path is the one place that holds it.
pub proof fn lemma_position(s: Seq<(Seq<char>, u64)>, path: Seq<char>, i: int)
    requires
        distinct_paths(s),
        0 <= i < s.len(),
        s[i].0 == path,
    ensures
        has_path(s, path),
        position(s, path) == i,
        weight_of(s, path) == s[i].1,
{
    // the chosen place holds `path`, and no other place than `i` can
    let j = position(s, path);
}

/// Giving a path a weight keeps paths distinct, stores that weight, and leaves
/// every other path as it was.
pub proof fn lemma_upsert(s: Seq<(Seq<char>, u64)>, path: Seq<char>, weight: u64)
    requires
        distinct_paths(s),
    ensures
        distinct_paths(upsert(s, path, weight)),
        has_path(upsert(s, path, weight), path),
        weight_of(upsert(s, path, weight), path) == weight,
        as_map(upsert(s, path, weight)) == as_map(s).insert(path, weight),
{
    let t = upsert(s, path, weight);
    // the place of `path` after the change: where it was, or the new last place
    let k = if has_path(s, path) {
        position(s, path)
    } else {
        s.len() as int
    };
    if has_path(s, path) {
        lemma_position(s, path, k);
    }
    assert forall|i: int, j: int| 0 <= i < j < t.len() implies t[i].0 != t[j].0 by {}
    assert forall|p: Seq<char>| has_path(t, p) == (p == path || has_path(s, p)) by {
        if has_path(t, p) {
            let i = position(t, p);
        }
        if has_path(s, p) {
            let i = position(s, p);
            assert(t[i].0 == p);
        }
        if p == path {
            assert(t[k].0 == p);
        }
    }
    assert forall|p: Seq<char>| has_path(t, p) implies weight_of(t, p) == if p == path {
        weight
    } else {
        weight_of(s, p)
    } by {
        let i = position(t, p);
        lemma_position(t, p, i);
        if p != path {
            lemma_position(s, p, i);
        } else {
            lemma_position(t, p, k);
        }
    }
}

/// The entry at place `i` outlives a reclamation: its path was found on disk
/// and its weight is not zero. A place for which `found` holds no answer
/// counts as not found.
pub open spec fn survives(s: Seq<(Seq<char>, u64)>, found: Seq<bool>, i: int) -> bool {
    0 <= i < s.len() && i < found.len() && found[i] && s[i].1 != 0
}

/// The entries that outlive a reclamation, in their order.
pub open spec fn survivors(s: Seq<(Seq<char>, u64)>, found: Seq<bool>) -> Seq<(Seq<char>, u64)>
    decreases s.len(),
{
    if s.len() == 0 {
        s
    } else if survives(s, found, s.len() - 1) {
        survivors(s.drop_last(), found).push(s.last())
    } else {
        survivors(s.drop_last(), found)
    }
}

/// `e` is an entry of `s` that outlives a reclamation.
pub open spec fn is_survivor(s: Seq<(Seq<char>, u64)>, found: Seq<bool>, e: (Seq<char>, u64)) -> bool {
    exists|i: int| #[trigger] survives(s, found, i) && s[i] == e
}

/// Reclamation keeps exactly the entries that survive, and keeps their paths
/// distinct.
pub proof fn lemma_survivors(s: Seq<(Seq<char>, u64)>, found: Seq<bool>)
    requires
        distinct_paths(s),
    ensures
        survivors(s, found).len() <= s.len(),
        distinct_paths(survivors(s, found)),
        forall|k: int|
            0 <= k < survivors(s, found).len() ==> is_survivor(
                s,
                found,
                #[trigger] survivors(s, found)[k],
            ),
        forall|i: int|
            #[trigger] survives(s, found, i) ==> survivors(s, found).contains(s[i]),
    decreases s.len(),
{
    let r = survivors(s, found);
    if s.len() > 0 {
        let t = s.drop_last();
        let n = t.len() as int;
        let front = survivors(t, found);
        assert(distinct_paths(t)) by {
            assert forall|i: int, j: int| 0 <= i < j < t.len() implies t[i].0 != t[j].0 by {}
        }
        lemma_survivors(t, found);
        assert forall|k: int| 0 <= k < front.len() implies is_survivor(s, found, #[trigger] front[k])
            && front[k].0 != s[n].0 by {
            let i = choose|i: int| #[trigger] survives(t, found, i) && t[i] == front[k];
            assert(survives(s, found, i) && s[i] == front[k]);
        }
        assert forall|k: int| 0 <= k < r.len() implies is_survivor(s, found, #[trigger] r[k]) by {}
        assert forall|i: int| #[trigger] survives(s, found, i) implies r.contains(s[i]) by {
            if i < n {
                assert(survives(t, found, i));
                let k = choose|k: int| 0 <= k < front.len() && front[k] == t[i];
                assert(r[k] == s[i]);
            } else {
                assert(r[r.len() - 1] == s[i]);
            }
        }
        assert forall|a: int, b: int| 0 <= a < b < r.len() implies r[a].0 != r[b].0 by {}
    }
}

/// The entries that a list of pairs amounts to when the pairs are taken in
/// one after the other: a path that comes again keeps its place and takes the
/// later weight.
pub open spec fn collected(pairs: Seq<(Seq<char>, u64)>) -> Seq<(Seq<char>, u64)>
    decreases pairs.len(),
{
    if pairs.len() == 0 {
        pairs
    } else {
        upsert(collected(pairs.drop_last()), pairs.last().0, pairs.last().1)
    }
}

/// Taking in pairs yields distinct paths, and leaves a list of distinct paths
/// as it is.
pub proof fn lemma_collected(pairs: Seq<(Seq<char>, u64)>)
    ensures
        distinct_paths(collected(pairs)),
        collected(pairs).len() <= pairs.len(),
        distinct_paths(pairs) ==> collected(pairs) == pairs,
    decreases pairs.len(),
{
    if pairs.len() > 0 {
        let front = pairs.drop_last();
        let e = pairs.last();
        lemma_collected(front);
        lemma_upsert(collected(front), e.0, e.1);
        if distinct_paths(pairs) {
            assert(distinct_paths(front)) by {
                assert forall|i: int, j: int| 0 <= i < j < front.len() implies front[i].0
                    != front[j].0 by {}
            }
            assert(!has_path(front, e.0));
        }
    }
}

} // verus!

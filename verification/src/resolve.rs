use vstd::prelude::*;
use crate::data::{Data, Sorted};
use crate::entries::has_path;
use crate::matcher::{
    anywhere_re, anywhere_source, close_enough, consecutive_pattern, consecutive_source,
    match_dist_at, regex_verdict, texts, Pattern,
};
use crate::paths::{main_separator, path_exists, same_path};
use crate::ranking::{descending, ranked};
use crate::similarity::Ratio;

verus! {

/// The least place at which `flags` holds `true`.
pub open spec fn first_true(flags: Seq<bool>) -> Option<int>
    decreases flags.len(),
{
    if flags.len() == 0 {
        None
    } else if first_true(flags.drop_last()) is Some {
        first_true(flags.drop_last())
    } else if flags.last() {
        Some(flags.len() - 1)
    } else {
        None
    }
}

/// `first_true` gives a place that holds `true` with none before it, or
/// `None` where no place holds `true`.
pub proof fn lemma_first_true(flags: Seq<bool>)
    ensures
        match first_true(flags) {
            Some(i) => 0 <= i < flags.len() && flags[i] && forall|j: int| 0 <= j < i ==> !flags[j],
            None => forall|j: int| 0 <= j < flags.len() ==> !flags[j],
        },
    decreases flags.len(),
{
    if flags.len() > 0 {
        let front = flags.drop_last();
        lemma_first_true(front);
        match first_true(front) {
            Some(i) => {
                assert forall|j: int| 0 <= j < i implies !flags[j] by {
                    assert(front[j] == flags[j]);
                }
            },
            None => {
                assert forall|j: int| 0 <= j < flags.len() - 1 implies !flags[j] by {
                    assert(front[j] == flags[j]);
                }
            },
        }
    }
}

/// The place that three strategies settle on: the first hit of the first
/// strategy that has one.
pub open spec fn choice(consecutive: Seq<bool>, fuzzy: Seq<bool>, anywhere: Seq<bool>) -> Option<
    int,
> {
    if first_true(consecutive) is Some {
        first_true(consecutive)
    } else if first_true(fuzzy) is Some {
        first_true(fuzzy)
    } else {
        first_true(anywhere)
    }
}

/// The entry at place `i` may be resolved to: it is on disk and is not the
/// directory that the query comes from. A place for which `eligible` holds no
/// answer may not.
pub open spec fn is_eligible(eligible: Seq<bool>, i: int) -> bool {
    0 <= i < eligible.len() && eligible[i]
}

/// For each entry of the snapshot, whether it is eligible and `pattern`
/// matches its path.
pub open spec fn pattern_hits(
    snapshot: Seq<(Seq<char>, u64)>,
    eligible: Seq<bool>,
    pattern: Seq<char>,
    ignore_case: bool,
) -> Seq<bool> {
    Seq::new(
        snapshot.len(),
        |i: int|
            is_eligible(eligible, i) && regex_verdict(pattern, ignore_case, snapshot[i].0) == Some(
                true,
            ),
    )
}

/// For each entry of the snapshot, whether it is eligible and `needle` is
/// close enough to the last segment of its path.
pub open spec fn fuzzy_hits(
    snapshot: Seq<(Seq<char>, u64)>,
    eligible: Seq<bool>,
    needle: Seq<char>,
    sep: char,
    ignore_case: bool,
    threshold: Ratio,
) -> Seq<bool> {
    Seq::new(
        snapshot.len(),
        |i: int|
            is_eligible(eligible, i) && close_enough(
                needle,
                snapshot[i].0,
                ignore_case,
                threshold,
                sep,
            ),
    )
}

/// The place in the snapshot that a query resolves to: the first eligible
/// entry that the consecutive-segment pattern matches; where there is none,
/// the first whose last segment is close enough to the last needle; where
/// there is none either, the first that the anywhere pattern matches. A query
/// without needles resolves to nothing.
pub open spec fn resolved_place(
    snapshot: Seq<(Seq<char>, u64)>,
    eligible: Seq<bool>,
    needles: Seq<Seq<char>>,
    sep: char,
    ignore_case: bool,
    threshold: Ratio,
) -> Option<int> {
    if needles.len() == 0 {
        None
    } else {
        choice(
            pattern_hits(snapshot, eligible, consecutive_source(needles, sep), ignore_case),
            fuzzy_hits(snapshot, eligible, needles.last(), sep, ignore_case, threshold),
            pattern_hits(snapshot, eligible, anywhere_source(needles), ignore_case),
        )
    }
}

/// The path that a query resolves to.
pub open spec fn resolution(
    snapshot: Seq<(Seq<char>, u64)>,
    eligible: Seq<bool>,
    needles: Seq<Seq<char>>,
    sep: char,
    ignore_case: bool,
    threshold: Ratio,
) -> Option<Seq<char>> {
    match resolved_place(snapshot, eligible, needles, sep, ignore_case, threshold) {
        Some(i) => Some(snapshot[i].0),
        None => None,
    }
}

/// A resolved path as code points.
pub open spec fn path_of(r: Option<String>) -> Option<Seq<char>> {
    match r {
        Some(p) => Some(p@),
        None => None,
    }
}

/// A query resolves only to an entry of the snapshot that is eligible.
pub proof fn lemma_resolved_place(
    snapshot: Seq<(Seq<char>, u64)>,
    eligible: Seq<bool>,
    needles: Seq<Seq<char>>,
    sep: char,
    ignore_case: bool,
    threshold: Ratio,
)
    ensures
        match resolved_place(snapshot, eligible, needles, sep, ignore_case, threshold) {
            Some(i) => 0 <= i < snapshot.len() && is_eligible(eligible, i),
            None => true,
        },
{
    lemma_first_true(
        pattern_hits(snapshot, eligible, consecutive_source(needles, sep), ignore_case),
    );
    lemma_first_true(
        fuzzy_hits(snapshot, eligible, needles.last(), sep, ignore_case, threshold),
    );
    lemma_first_true(pattern_hits(snapshot, eligible, anywhere_source(needles), ignore_case));
}

/// Where weights fall along the snapshot, the first hit of a strategy is its
/// heaviest: no other hit weighs more.
pub proof fn lemma_first_hit_is_heaviest(snapshot: Seq<(Seq<char>, u64)>, hits: Seq<bool>, j: int)
    requires
        descending(snapshot),
        hits.len() == snapshot.len(),
        0 <= j < hits.len(),
        hits[j],
    ensures
        first_true(hits) is Some,
        snapshot[j].1 <= snapshot[first_true(hits)->Some_0].1,
{
    lemma_first_true(hits);
}

/// Where no entry is eligible, a query resolves to nothing.
pub proof fn lemma_nothing_eligible(
    snapshot: Seq<(Seq<char>, u64)>,
    eligible: Seq<bool>,
    needles: Seq<Seq<char>>,
    sep: char,
    ignore_case: bool,
    threshold: Ratio,
)
    requires
        forall|i: int| 0 <= i < snapshot.len() ==> !is_eligible(eligible, i),
    ensures
        resolution(snapshot, eligible, needles, sep, ignore_case, threshold) is None,
{
    lemma_resolved_place(snapshot, eligible, needles, sep, ignore_case, threshold);
}

/// Where the consecutive-segment pattern has a hit, the query resolves to its
/// first hit, whatever the other two strategies find and whatever the weights.
pub proof fn lemma_consecutive_first(
    snapshot: Seq<(Seq<char>, u64)>,
    eligible: Seq<bool>,
    needles: Seq<Seq<char>>,
    sep: char,
    ignore_case: bool,
    threshold: Ratio,
    i: int,
)
    requires
        needles.len() > 0,
        0 <= i < snapshot.len(),
        pattern_hits(snapshot, eligible, consecutive_source(needles, sep), ignore_case)[i],
    ensures
        resolved_place(snapshot, eligible, needles, sep, ignore_case, threshold) == first_true(
            pattern_hits(snapshot, eligible, consecutive_source(needles, sep), ignore_case),
        ),
        resolved_place(snapshot, eligible, needles, sep, ignore_case, threshold) is Some,
{
    lemma_first_true(
        pattern_hits(snapshot, eligible, consecutive_source(needles, sep), ignore_case),
    );
}

/// Strategy comes before weight: where the consecutive-segment pattern
/// matches the path of one eligible entry and of no other, the query resolves
/// to that entry, however heavy the others are and whatever the other two
/// strategies find.
pub proof fn lemma_single_consecutive_hit(
    snapshot: Seq<(Seq<char>, u64)>,
    eligible: Seq<bool>,
    needles: Seq<Seq<char>>,
    sep: char,
    ignore_case: bool,
    threshold: Ratio,
    i: int,
)
    requires
        needles.len() > 0,
        0 <= i < snapshot.len(),
        is_eligible(eligible, i),
        regex_verdict(consecutive_source(needles, sep), ignore_case, snapshot[i].0) == Some(true),
        forall|j: int|
            0 <= j < snapshot.len() && j != i && is_eligible(eligible, j) ==> regex_verdict(
                consecutive_source(needles, sep),
                ignore_case,
                (#[trigger] snapshot[j]).0,
            ) != Some(true),
    ensures
        resolved_place(snapshot, eligible, needles, sep, ignore_case, threshold) == Some(i),
        resolution(snapshot, eligible, needles, sep, ignore_case, threshold) == Some(
            snapshot[i].0,
        ),
{
    let hits = pattern_hits(snapshot, eligible, consecutive_source(needles, sep), ignore_case);
    lemma_first_true(hits);
    assert(hits[i]);
    let at = first_true(hits)->Some_0;
    assert(hits[at]);
}

/// The least place at which `flags` holds `true`.
pub fn first_set(flags: &Vec<bool>) -> (r: Option<usize>)
    ensures
        match r {
            Some(i) => first_true(flags@) == Some(i as int),
            None => first_true(flags@) is None,
        },
{
    let mut i: usize = 0;
    while i < flags.len()
        invariant
            i <= flags.len(),
            first_true(flags@.take(i as int)) is None,
        decreases flags.len() - i,
    {
        proof {
            assert(flags@.take(i + 1).drop_last() =~= flags@.take(i as int));
        }
        if flags[i] {
            proof {
                lemma_first_from_prefix(flags@, i + 1);
            }
            return Some(i);
        }
        i += 1;
    }
    assert(flags@.take(i as int) =~= flags@);
    None
}

/// The place that three strategies settle on, given the hits of each: the
/// first hit of the consecutive-segment match; where it has none, the first
/// hit of the fuzzy match; where that has none either, the first hit of the
/// anywhere match.
pub fn choose_place(consecutive: &Vec<bool>, fuzzy: &Vec<bool>, anywhere: &Vec<bool>) -> (r: Option<
    usize,
>)
    ensures
        match r {
            Some(i) => choice(consecutive@, fuzzy@, anywhere@) == Some(i as int),
            None => choice(consecutive@, fuzzy@, anywhere@) is None,
        },
{
    match first_set(consecutive) {
        Some(i) => Some(i),
        None => match first_set(fuzzy) {
            Some(i) => Some(i),
            None => first_set(anywhere),
        },
    }
}

/// A first hit within a prefix is the first hit of the whole.
proof fn lemma_first_from_prefix(flags: Seq<bool>, n: int)
    requires
        0 <= n <= flags.len(),
        first_true(flags.take(n)) is Some,
    ensures
        first_true(flags) == first_true(flags.take(n)),
    decreases flags.len() - n,
{
    if n < flags.len() {
        assert(flags.take(n + 1).drop_last() =~= flags.take(n));
        lemma_first_from_prefix(flags, n + 1);
    } else {
        assert(flags.take(n) =~= flags);
    }
}

/// Says for each entry of the snapshot whether it is eligible and the pattern
/// matches its path.
fn find_pattern_hits(snapshot: &Sorted, eligible: &Vec<bool>, pattern: &Pattern) -> (hits: Vec<bool>)
    ensures
        hits@ == pattern_hits(snapshot@, eligible@, pattern.source@, pattern.ignore_case),
{
    let paths = snapshot.paths();
    let n = paths.len();
    let verdicts = pattern.matches(&paths);
    let mut hits: Vec<bool> = Vec::new();
    let mut i: usize = 0;
    while i < n
        invariant
            i <= n,
            n == snapshot@.len(),
            n == paths.len(),
            hits.len() == i,
            forall|k: int| 0 <= k < n ==> (#[trigger] paths[k])@ == snapshot@[k].0,
            match verdicts {
                Some(found) => found.len() == n && forall|k: int|
                    0 <= k < n ==> regex_verdict(
                        pattern.source@,
                        pattern.ignore_case,
                        paths[k]@,
                    ) == Some(#[trigger] found[k]),
                None => forall|k: int|
                    0 <= k < n ==> regex_verdict(
                        pattern.source@,
                        pattern.ignore_case,
                        (#[trigger] paths[k])@,
                    ) is None,
            },
            forall|k: int|
                0 <= k < i ==> hits[k] == (is_eligible(eligible@, k) && regex_verdict(
                    pattern.source@,
                    pattern.ignore_case,
                    snapshot@[k].0,
                ) == Some(true)),
        decreases n - i,
    {
        let open = i < eligible.len() && eligible[i];
        let hit = match &verdicts {
            Some(found) => open && found[i],
            None => false,
        };
        assert(paths[i as int]@ == snapshot@[i as int].0);
        hits.push(hit);
        i += 1;
    }
    hits
}

/// Says for each entry of the snapshot whether it is eligible and the needle
/// is close enough to the last segment of its path.
fn find_fuzzy_hits(
    snapshot: &Sorted,
    eligible: &Vec<bool>,
    needle: &str,
    sep: char,
    ignore_case: bool,
    threshold: Ratio,
) -> (hits: Vec<bool>)
    ensures
        hits@ == fuzzy_hits(snapshot@, eligible@, needle@, sep, ignore_case, threshold),
{
    let n = snapshot.len();
    let mut hits: Vec<bool> = Vec::new();
    let mut i: usize = 0;
    while i < n
        invariant
            i <= n,
            n == snapshot@.len(),
            hits.len() == i,
            forall|k: int|
                0 <= k < i ==> hits[k] == (is_eligible(eligible@, k) && close_enough(
                    needle@,
                    snapshot@[k].0,
                    ignore_case,
                    threshold,
                    sep,
                )),
        decreases n - i,
    {
        let hit = if i < eligible.len() && eligible[i] {
            match snapshot.get(i) {
                Some(e) => match_dist_at(needle, e.0.as_str(), ignore_case, threshold, sep),
                None => false,
            }
        } else {
            false
        };
        hits.push(hit);
        i += 1;
    }
    hits
}

/// The path at place `at` of the snapshot.
fn path_at(snapshot: &Sorted, at: usize) -> (r: Option<String>)
    ensures
        path_of(r) == if at < snapshot@.len() {
            Some(snapshot@[at as int].0)
        } else {
            None
        },
{
    match snapshot.get(at) {
        Some(e) => Some(e.0.clone()),
        None => None,
    }
}

/// Resolves a query against a snapshot, given for each of its entries whether
/// it may be resolved to, and the separator that parts the segments of a path.
/// A later strategy is only tried where the one before it has no hit.
pub fn resolve_among(
    snapshot: &Sorted,
    eligible: &Vec<bool>,
    needles: &[String],
    sep: char,
    ignore_case: bool,
    threshold: Ratio,
) -> (r: Option<String>)
    ensures
        path_of(r) == resolution(
            snapshot@,
            eligible@,
            texts(needles@),
            sep,
            ignore_case,
            threshold,
        ),
{
    let count = needles.len();
    if count == 0 {
        return None;
    }
    let ghost ns = texts(needles@);
    proof {
        lemma_resolved_place(snapshot@, eligible@, ns, sep, ignore_case, threshold);
    }
    let c_re = Pattern { source: consecutive_pattern(needles, sep), ignore_case };
    let c_hits = find_pattern_hits(snapshot, eligible, &c_re);
    let settled = first_set(&c_hits).is_some();
    let f_hits = if settled {
        Vec::new()
    } else {
        find_fuzzy_hits(
            snapshot,
            eligible,
            needles[count - 1].as_str(),
            sep,
            ignore_case,
            threshold,
        )
    };
    let settled = settled || first_set(&f_hits).is_some();
    let a_hits = if settled {
        Vec::new()
    } else {
        let a_re = anywhere_re(needles, ignore_case);
        find_pattern_hits(snapshot, eligible, &a_re)
    };
    match choose_place(&c_hits, &f_hits, &a_hits) {
        Some(i) => path_at(snapshot, i),
        None => None,
    }
}

/// Resolves a query against the index as it stands on this machine now: an
/// entry may be resolved to where its path is on disk and is not `cwd`, and
/// segments are parted by the separator of the platform, a slash or a
/// backslash. The result is never `cwd`.
pub fn resolve(index: &Data, needles: &[String], cwd: &str, ignore_case: bool, threshold: Ratio) -> (r:
    Option<String>)
    ensures
        exists|eligible: Seq<bool>, sep: char|
            (sep == '/' || sep == '\\') && eligible.len() == index@.len() && (forall|i: int|
                0 <= i < eligible.len() && eligible[i] ==> ranked(index@)[i].0 != cwd@) && path_of(
                r,
            ) == #[trigger] resolution(
                ranked(index@),
                eligible,
                texts(needles@),
                sep,
                ignore_case,
                threshold,
            ),
        match r {
            Some(p) => p@ != cwd@ && has_path(index@, p@),
            None => true,
        },
{
    let snapshot = index.sorted();
    let n = snapshot.len();
    let sep = main_separator();
    let mut eligible: Vec<bool> = Vec::new();
    let mut i: usize = 0;
    while i < n
        invariant
            i <= n,
            n == snapshot@.len(),
            eligible.len() == i,
            forall|k: int| 0 <= k < i && eligible[k] ==> snapshot@[k].0 != cwd@,
        decreases n - i,
    {
        let open = match snapshot.get(i) {
            Some(e) => path_exists(e.0.as_str()) && !same_path(e.0.as_str(), cwd),
            None => false,
        };
        eligible.push(open);
        i += 1;
    }
    let r = resolve_among(&snapshot, &eligible, needles, sep, ignore_case, threshold);
    proof {
        lemma_resolved_place(
            snapshot@,
            eligible@,
            texts(needles@),
            sep,
            ignore_case,
            threshold,
        );
        // what the snapshot holds at the resolved place is an entry of the index
        if r is Some {
            let at = resolved_place(
                snapshot@,
                eligible@,
                texts(needles@),
                sep,
                ignore_case,
                threshold,
            )->Some_0;
            assert(index@.contains(snapshot@[at]));
        }
    }
    r
}

} // verus!

use vstd::prelude::*;
use crate::text::chars_of;

verus! {

/// The least of three integers.
pub open spec fn min3(x: int, y: int, z: int) -> int {
    if x <= y {
        if x <= z { x } else { z }
    } else {
        if y <= z { y } else { z }
    }
}

/// Levenshtein distance between two sequences of code points: the least number
/// of single-character insertions, deletions and substitutions that turn `a`
/// into `b`.
pub open spec fn edit_distance(a: Seq<char>, b: Seq<char>) -> nat
    decreases a.len() + b.len(),
{
    if a.len() == 0 {
        b.len()
    } else if b.len() == 0 {
        a.len()
    } else if a.last() == b.last() {
        edit_distance(a.drop_last(), b.drop_last())
    } else {
        (1 + min3(
            edit_distance(a.drop_last(), b) as int,
            edit_distance(a, b.drop_last()) as int,
            edit_distance(a.drop_last(), b.drop_last()) as int,
        )) as nat
    }
}

/// The longer of two lengths.
pub open spec fn longer(x: nat, y: nat) -> nat {
    if x >= y { x } else { y }
}

/// The distance never exceeds the length of the longer sequence.
pub proof fn lemma_distance_at_most_longer(a: Seq<char>, b: Seq<char>)
    ensures
        edit_distance(a, b) <= longer(a.len(), b.len()),
    decreases a.len() + b.len(),
{
    if a.len() > 0 && b.len() > 0 {
        lemma_distance_at_most_longer(a.drop_last(), b.drop_last());
    }
}

/// A sequence is at distance zero from itself.
pub proof fn lemma_distance_to_self(a: Seq<char>)
    ensures
        edit_distance(a, a) == 0,
    decreases a.len(),
{
    if a.len() > 0 {
        lemma_distance_to_self(a.drop_last());
    }
}

/// Distance is symmetric.
pub proof fn lemma_distance_symmetric(a: Seq<char>, b: Seq<char>)
    ensures
        edit_distance(a, b) == edit_distance(b, a),
    decreases a.len() + b.len(),
{
    if a.len() == 0 || b.len() == 0 {
    } else {
        lemma_distance_symmetric(a.drop_last(), b.drop_last());
        lemma_distance_symmetric(a.drop_last(), b);
        lemma_distance_symmetric(a, b.drop_last());
    }
}

/// One step of the recurrence, phrased over prefixes: the distance between the
/// first `i` characters of `a` and the first `j` of `b`, from its three
/// neighbours.
proof fn lemma_prefix_step(a: Seq<char>, b: Seq<char>, i: int, j: int)
    requires
        0 < i <= a.len(),
        0 < j <= b.len(),
    ensures
        a[i - 1] == b[j - 1] ==> edit_distance(a.take(i), b.take(j)) == edit_distance(
            a.take(i - 1),
            b.take(j - 1),
        ),
        a[i - 1] != b[j - 1] ==> edit_distance(a.take(i), b.take(j)) == 1 + min3(
            edit_distance(a.take(i - 1), b.take(j)) as int,
            edit_distance(a.take(i), b.take(j - 1)) as int,
            edit_distance(a.take(i - 1), b.take(j - 1)) as int,
        ),
{
    assert(a.take(i).drop_last() =~= a.take(i - 1));
    assert(b.take(j).drop_last() =~= b.take(j - 1));
}

/// Levenshtein distance between two character vectors, in time proportional to
/// the product of their lengths and space proportional to the shorter.
pub fn char_distance(a: &Vec<char>, b: &Vec<char>) -> (d: usize)
    ensures
        d == edit_distance(a@, b@),
{
    if a.len() <= b.len() {
        sweep(a, b)
    } else {
        proof {
            lemma_distance_symmetric(a@, b@);
        }
        sweep(b, a)
    }
}

/// Levenshtein distance, swept over a single row of `a.len() + 1` cells, once
/// for each character of `b`.
fn sweep(a: &Vec<char>, b: &Vec<char>) -> (d: usize)
    ensures
        d == edit_distance(a@, b@),
{
    let n = a.len();
    let m = b.len();
    let mut dist: Vec<usize> = Vec::new();
    let mut k: usize = 0;
    while k < n
        invariant
            k <= n,
            dist.len() == k,
            forall|i: int| 0 <= i < k ==> dist[i] == i,
        decreases n - k,
    {
        dist.push(k);
        k += 1;
    }
    dist.push(n);
    let mut j: usize = 0;
    while j < m
        invariant
            j <= m,
            n == a.len(),
            m == b.len(),
            dist.len() == n + 1,
            forall|i: int| 0 <= i <= n ==> dist[i] == edit_distance(a@.take(i), b@.take(j as int)),
        decreases m - j,
    {
        let mut diag = dist[0];
        dist.set(0, j + 1);
        let mut i: usize = 1;
        while i <= n
            invariant
                1 <= i <= n + 1,
                j < m,
                n == a.len(),
                m == b.len(),
                dist.len() == n + 1,
                forall|k: int| 0 <= k < i ==> dist[k] == edit_distance(a@.take(k), b@.take(j + 1)),
                forall|k: int| i <= k <= n ==> dist[k] == edit_distance(a@.take(k), b@.take(j as int)),
                diag == edit_distance(a@.take(i - 1), b@.take(j as int)),
            decreases n + 1 - i,
        {
            let left = dist[i - 1];
            let up = dist[i];
            proof {
                lemma_prefix_step(a@, b@, i as int, j + 1);
                lemma_distance_at_most_longer(a@.take(i - 1), b@.take(j as int));
            }
            let res = if a[i - 1] == b[j] {
                diag
            } else {
                let mut least = diag;
                if left < least {
                    least = left;
                }
                if up < least {
                    least = up;
                }
                least + 1
            };
            diag = up;
            dist.set(i, res);
            i += 1;
        }
        j += 1;
    }
    assert(a@.take(n as int) =~= a@);
    assert(b@.take(m as int) =~= b@);
    dist[n]
}

/// Levenshtein distance between two strings, counted in code points.
pub fn edition_dist(letter_a: &str, letter_b: &str) -> (d: usize)
    ensures
        d == edit_distance(letter_a@, letter_b@),
{
    let a = chars_of(letter_a);
    let b = chars_of(letter_b);
    char_distance(&a, &b)
}

} // verus!

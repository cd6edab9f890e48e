use vstd::prelude::*;
use crate::distance::{char_distance, edit_distance, lemma_distance_at_most_longer, lemma_distance_to_self, longer};
use crate::text::{chars_of, lowercase, to_lowercase};

verus! {

/// A fraction `num / den`, used for similarities and for the thresholds they
/// are held against. Fractions are compared by cross products, so a
/// denominator of zero needs no special case: `k / 0` with `k > 0` lies above
/// every similarity.
#[derive(Clone, Copy, Debug, PartialEq, Eq, Structural)]
pub struct Ratio {
    pub num: u64,
    pub den: u64,
}

/// `a / b >= c / d`, decided without division.
pub open spec fn at_least(a: nat, b: nat, c: nat, d: nat) -> bool {
    a * d >= c * b
}

/// A string as it enters a comparison: in lower case where case is ignored.
pub open spec fn folded(s: Seq<char>, ignore_case: bool) -> Seq<char> {
    if ignore_case {
        lowercase(s)
    } else {
        s
    }
}

/// The similarity of two sequences of code points, as numerator and
/// denominator: one minus their edit distance over the length of the longer.
/// Two empty sequences are wholly similar.
pub open spec fn similarity(a: Seq<char>, b: Seq<char>) -> (nat, nat) {
    let span = longer(a.len(), b.len());
    if span == 0 {
        (1, 1)
    } else {
        ((span - edit_distance(a, b)) as nat, span)
    }
}

/// A similarity lies between zero and one.
pub proof fn lemma_similarity_bounds(a: Seq<char>, b: Seq<char>)
    ensures
        similarity(a, b).1 > 0,
        similarity(a, b).0 <= similarity(a, b).1,
        similarity(a, b).0 + edit_distance(a, b) == similarity(a, b).1 || (a.len() == 0 && b.len()
            == 0),
{
    lemma_distance_at_most_longer(a, b);
}

/// Every sequence is wholly similar to itself.
pub proof fn lemma_similarity_to_self(a: Seq<char>)
    ensures
        similarity(a, a).0 == similarity(a, a).1,
{
    lemma_distance_to_self(a);
}

/// The product of two weights, which a wider integer always holds.
fn product(x: u64, y: u64) -> (p: u128)
    ensures
        p == x * y,
{
    assert(x * y <= 0xFFFF_FFFF_FFFF_FFFFu128 * 0xFFFF_FFFF_FFFF_FFFFu128) by (nonlinear_arith)
        requires
            x <= 0xFFFF_FFFF_FFFF_FFFFu128,
            y <= 0xFFFF_FFFF_FFFF_FFFFu128,
    ;
    (x as u128) * (y as u128)
}

impl Ratio {
    /// Whether this fraction is at least `other`.
    pub fn reaches(&self, other: &Ratio) -> (r: bool)
        ensures
            r == at_least(self.num as nat, self.den as nat, other.num as nat, other.den as nat),
    {
        product(self.num, other.den) >= product(other.num, self.den)
    }
}

/// The threshold that a fuzzy match has to reach unless the caller names
/// another: three fifths.
pub fn default_threshold() -> (r: Ratio)
    ensures
        r == (Ratio { num: 3, den: 5 }),
{
    Ratio { num: 3, den: 5 }
}

/// The similarity of two character vectors.
pub fn char_similarity(a: &Vec<char>, b: &Vec<char>) -> (r: Ratio)
    ensures
        r.num == similarity(a@, b@).0,
        r.den == similarity(a@, b@).1,
        0 < r.den,
        r.num <= r.den,
        a@ == b@ ==> r.num == r.den,
{
    proof {
        lemma_distance_at_most_longer(a@, b@);
        if a@ == b@ {
            lemma_distance_to_self(a@);
        }
    }
    let span = if a.len() >= b.len() {
        a.len()
    } else {
        b.len()
    };
    if span == 0 {
        Ratio { num: 1, den: 1 }
    } else {
        let d = char_distance(a, b);
        Ratio { num: (span - d) as u64, den: span as u64 }
    }
}

/// The similarity of a needle and the last segment of a path, both put in
/// lower case first where case is ignored.
pub fn letter_similarity(needle: &str, basename: &str, ignore_case: bool) -> (r: Ratio)
    ensures
        r.num == similarity(folded(needle@, ignore_case), folded(basename@, ignore_case)).0,
        r.den == similarity(folded(needle@, ignore_case), folded(basename@, ignore_case)).1,
        0 < r.den,
        r.num <= r.den,
        needle@ == basename@ ==> r.num == r.den,
{
    if ignore_case {
        let a = to_lowercase(needle);
        let b = to_lowercase(basename);
        char_similarity(&chars_of(a.as_str()), &chars_of(b.as_str()))
    } else {
        char_similarity(&chars_of(needle), &chars_of(basename))
    }
}

} // verus!

use vstd::prelude::*;

verus! {

/// Weight that one visit adds, in quadrature, to a path already in the index.
pub const INCREMENT: u64 = 100;

/// Weight that one step away takes from a path.
pub const DECREMENT: u64 = 100;

/// Weight of a path on its first visit.
pub const DEFAULT_WEIGHT: u64 = 100;

/// `r` is the integer square root of `n`: the largest natural number whose
/// square does not exceed `n`.
pub open spec fn is_floor_sqrt(r: nat, n: nat) -> bool {
    r * r <= n < (r + 1) * (r + 1)
}

/// The integer square root of `n`.
pub open spec fn floor_sqrt(n: nat) -> nat {
    choose|r: nat| is_floor_sqrt(r, n)
}

/// Squaring preserves order on the natural numbers.
pub proof fn lemma_square_monotone(x: nat, y: nat)
    requires
        x <= y,
    ensures
        x * x <= y * y,
{
    assert(x * x <= y * y) by (nonlinear_arith)
        requires
            x <= y,
    ;
}

/// Every natural number has an integer square root.
pub proof fn lemma_floor_sqrt_exists(n: nat) -> (r: nat)
    ensures
        is_floor_sqrt(r, n),
    decreases n,
{
    if n == 0 {
        assert(is_floor_sqrt(0, 0)) by (nonlinear_arith);
        0
    } else {
        let p = lemma_floor_sqrt_exists((n - 1) as nat);
        let q: nat = p + 1;
        if q * q <= n {
            assert(q * q < (q + 1) * (q + 1)) by (nonlinear_arith);
            q
        } else {
            p
        }
    }
}

/// The integer square root is the only number that meets its definition.
pub proof fn lemma_floor_sqrt_unique(r: nat, n: nat)
    requires
        is_floor_sqrt(r, n),
    ensures
        floor_sqrt(n) == r,
{
    let s = floor_sqrt(n);
    if s < r {
        lemma_square_monotone(s + 1, r);
    } else if r < s {
        lemma_square_monotone(r + 1, s);
    }
}

/// `floor_sqrt(n)` meets its definition.
pub proof fn lemma_floor_sqrt(n: nat)
    ensures
        is_floor_sqrt(floor_sqrt(n), n),
{
    let r = lemma_floor_sqrt_exists(n);
    lemma_floor_sqrt_unique(r, n);
}

/// The weight of a path after a visit worth `increment`: the two are combined
/// in quadrature, rounded down, and held at the largest representable weight.
pub open spec fn bumped(weight: u64, increment: u64) -> u64 {
    let root = floor_sqrt((weight * weight + increment * increment) as nat);
    if root > u64::MAX {
        u64::MAX
    } else {
        root as u64
    }
}

/// The weight of a path after `decrement` is taken from it, held at zero.
pub open spec fn decayed(weight: u64, decrement: u64) -> u64 {
    if weight >= decrement {
        (weight - decrement) as u64
    } else {
        0
    }
}

/// A bump never lowers a weight, never yields less than the increment, and
/// never yields more than plain addition would.
pub proof fn lemma_bumped_bounds(weight: u64, increment: u64)
    ensures
        bumped(weight, increment) >= weight,
        bumped(weight, increment) >= increment,
        bumped(weight, increment) <= weight + increment,
{
    let w = weight as nat;
    let i = increment as nat;
    let n = (w * w + i * i) as nat;
    let root = floor_sqrt(n);
    lemma_floor_sqrt(n);
    assert(w * w <= n) by (nonlinear_arith)
        requires
            n == w * w + i * i,
    ;
    assert(i * i <= n) by (nonlinear_arith)
        requires
            n == w * w + i * i,
    ;
    if root < w {
        lemma_square_monotone(root + 1, w);
    }
    if root < i {
        lemma_square_monotone(root + 1, i);
    }
    if root > w + i {
        lemma_square_monotone(w + i + 1, root);
        assert((w + i + 1) * (w + i + 1) > w * w + i * i) by (nonlinear_arith);
    }
}

/// A bump by zero leaves a weight as it is, and a bump of zero yields the
/// increment.
pub proof fn lemma_bumped_zero(x: u64)
    ensures
        bumped(x, 0) == x,
        bumped(0, x) == x,
{
    let n = x as nat;
    assert(is_floor_sqrt(n, n * n)) by (nonlinear_arith);
    lemma_floor_sqrt_unique(n, n * n);
}

/// Decay never raises a weight.
pub proof fn lemma_decayed_bounds(weight: u64, decrement: u64)
    ensures
        decayed(weight, decrement) <= weight,
        decayed(weight, decrement) == if weight >= decrement {
            weight - decrement
        } else {
            0
        },
{
}

/// The weight after a run of bumps, one for each increment in turn.
pub open spec fn bumped_by_all(weight: u64, increments: Seq<u64>) -> u64
    decreases increments.len(),
{
    if increments.len() == 0 {
        weight
    } else {
        bumped(bumped_by_all(weight, increments.drop_last()), increments.last())
    }
}

/// The weight after a run of decays, one for each decrement in turn.
pub open spec fn decayed_by_all(weight: u64, decrements: Seq<u64>) -> u64
    decreases decrements.len(),
{
    if decrements.len() == 0 {
        weight
    } else {
        decayed(decayed_by_all(weight, decrements.drop_last()), decrements.last())
    }
}

/// However often a weight is bumped, it never falls.
pub proof fn lemma_bumps_never_lower(weight: u64, increments: Seq<u64>)
    ensures
        bumped_by_all(weight, increments) >= weight,
    decreases increments.len(),
{
    if increments.len() > 0 {
        lemma_bumps_never_lower(weight, increments.drop_last());
        lemma_bumped_bounds(bumped_by_all(weight, increments.drop_last()), increments.last());
    }
}

/// However often a weight decays, it never rises, and it never falls below
/// zero.
pub proof fn lemma_decays_never_raise(weight: u64, decrements: Seq<u64>)
    ensures
        0 <= decayed_by_all(weight, decrements) <= weight,
    decreases decrements.len(),
{
    if decrements.len() > 0 {
        lemma_decays_never_raise(weight, decrements.drop_last());
    }
}

/// The integer square root, by bisection.
pub fn isqrt(n: u128) -> (r: u64)
    ensures
        r == floor_sqrt(n as nat),
        is_floor_sqrt(r as nat, n as nat),
{
    let mut lo: u128 = 0;
    let mut hi: u128 = 0x1_0000_0000_0000_0000;
    assert(0x1_0000_0000_0000_0000u128 * 0x1_0000_0000_0000_0000u128 > n) by (nonlinear_arith)
        requires
            n <= u128::MAX,
    ;
    while hi - lo > 1
        invariant
            lo < hi <= 0x1_0000_0000_0000_0000,
            lo * lo <= n < hi * hi,
        decreases hi - lo,
    {
        let mid = lo + (hi - lo) / 2;
        assert(mid * mid <= 0xFFFF_FFFF_FFFF_FFFFu128 * 0xFFFF_FFFF_FFFF_FFFFu128) by (nonlinear_arith)
            requires
                mid <= 0xFFFF_FFFF_FFFF_FFFFu128,
        ;
        if mid * mid <= n {
            lo = mid;
        } else {
            hi = mid;
        }
    }
    proof {
        lemma_floor_sqrt_unique(lo as nat, n as nat);
    }
    lo as u64
}

/// Computes [`bumped`].
pub fn bump(weight: u64, increment: u64) -> (r: u64)
    ensures
        r == bumped(weight, increment),
        r >= weight,
        r == u64::MAX || is_floor_sqrt(
            r as nat,
            (weight * weight + increment * increment) as nat,
        ),
{
    let w = weight as u128;
    let i = increment as u128;
    assert(w * w <= 0xFFFF_FFFF_FFFF_FFFFu128 * 0xFFFF_FFFF_FFFF_FFFFu128) by (nonlinear_arith)
        requires
            w <= 0xFFFF_FFFF_FFFF_FFFFu128,
    ;
    assert(i * i <= 0xFFFF_FFFF_FFFF_FFFFu128 * 0xFFFF_FFFF_FFFF_FFFFu128) by (nonlinear_arith)
        requires
            i <= 0xFFFF_FFFF_FFFF_FFFFu128,
    ;
    proof {
        lemma_bumped_bounds(weight, increment);
    }
    match (w * w).checked_add(i * i) {
        Some(sum) => isqrt(sum),
        None => {
            proof {
                let n = (w * w + i * i) as nat;
                lemma_floor_sqrt(n);
                let root = floor_sqrt(n);
                if root <= u64::MAX {
                    lemma_square_monotone(root + 1, 0x1_0000_0000_0000_0000);
                    assert(0x1_0000_0000_0000_0000nat * 0x1_0000_0000_0000_0000nat
                        == 0x1_0000_0000_0000_0000_0000_0000_0000_0000nat) by (nonlinear_arith);
                }
            }
            u64::MAX
        },
    }
}

/// Computes [`decayed`].
pub fn decay(weight: u64, decrement: u64) -> (r: u64)
    ensures
        r == decayed(weight, decrement),
        r <= weight,
{
    weight.saturating_sub(decrement)
}

} // verus!

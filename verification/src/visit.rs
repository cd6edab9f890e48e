use vstd::prelude::*;
use crate::data::Data;
use crate::entries::{has_path, upsert, weight_of};
use crate::weight::{bumped, decayed, DECREMENT, DEFAULT_WEIGHT, INCREMENT};

verus! {

/// Which way a visit moves the weight of a path.
#[derive(Clone, Copy, Debug, PartialEq, Eq, Structural)]
pub enum Direction {
    Increase,
    Decrease,
}

/// The entries after a visit to `path` in the given direction.
pub open spec fn visited(s: Seq<(Seq<char>, u64)>, path: Seq<char>, direction: Direction) -> Seq<
    (Seq<char>, u64),
> {
    match direction {
        Direction::Increase => upsert(
            s,
            path,
            if has_path(s, path) {
                bumped(weight_of(s, path), INCREMENT)
            } else {
                DEFAULT_WEIGHT
            },
        ),
        Direction::Decrease => upsert(s, path, decayed(weight_of(s, path), DECREMENT)),
    }
}

/// Records a visit to `path`: its weight rises or falls by one step.
pub fn record_visit(index: &mut Data, path: String, direction: Direction)
    ensures
        final(index)@ == visited(old(index)@, path@, direction),
        direction == Direction::Increase ==> weight_of(final(index)@, path@) >= weight_of(
            old(index)@,
            path@,
        ),
        direction == Direction::Decrease ==> weight_of(final(index)@, path@) <= weight_of(
            old(index)@,
            path@,
        ),
{
    match direction {
        Direction::Increase => index.increase(path),
        Direction::Decrease => index.decrease(path),
    }
}

} // verus!

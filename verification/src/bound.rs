//! One-sided bounds of an `i64` range, and how two of them are combined.
use vstd::prelude::*;

verus! {

/// An endpoint of a range, as `std::ops::Bound` describes it.
#[derive(Clone, Copy, Debug, PartialEq, Eq, Structural)]
pub enum Bound<T> {
    Included(T),
    Excluded(T),
    Unbounded,
}

/// The timestamp range of a source: lower bound, then upper bound.
pub type TimestampRange = (Bound<i64>, Bound<i64>);

/// `x` lies below (or at) the upper bound `b`.
pub open spec fn below_upper(b: Bound<i64>, x: int) -> bool {
    match b {
        Bound::Included(t) => x <= t,
        Bound::Excluded(t) => x < t,
        Bound::Unbounded => true,
    }
}

/// `x` lies above (or at) the lower bound `b`.
pub open spec fn above_lower(b: Bound<i64>, x: int) -> bool {
    match b {
        Bound::Included(t) => t <= x,
        Bound::Excluded(t) => t < x,
        Bound::Unbounded => true,
    }
}

/// `x` lies within the range `r`.
pub open spec fn in_range(r: TimestampRange, x: int) -> bool {
    above_lower(r.0, x) && below_upper(r.1, x)
}

/// The tighter of two upper bounds: the smaller endpoint wins, and on a tie
/// an exclusive endpoint wins over an inclusive one.
pub open spec fn tighter_upper(first: Bound<i64>, second: Bound<i64>) -> Bound<i64> {
    match (first, second) {
        (_, Bound::Unbounded) => first,
        (Bound::Unbounded, _) => second,
        (Bound::Included(f1), Bound::Included(f2)) => Bound::Included(if f1 <= f2 { f1 } else { f2 }),
        (Bound::Included(f1), Bound::Excluded(f2)) => if f1 < f2 { first } else { second },
        (Bound::Excluded(f1), Bound::Included(f2)) => if f2 < f1 { second } else { first },
        (Bound::Excluded(f1), Bound::Excluded(f2)) => Bound::Excluded(if f1 <= f2 { f1 } else { f2 }),
    }
}

/// The tighter of two lower bounds: the larger endpoint wins, and on a tie
/// an exclusive endpoint wins over an inclusive one.
pub open spec fn tighter_lower(first: Bound<i64>, second: Bound<i64>) -> Bound<i64> {
    match (first, second) {
        (_, Bound::Unbounded) => first,
        (Bound::Unbounded, _) => second,
        (Bound::Included(f1), Bound::Included(f2)) => Bound::Included(if f1 >= f2 { f1 } else { f2 }),
        (Bound::Included(f1), Bound::Excluded(f2)) => if f1 > f2 { first } else { second },
        (Bound::Excluded(f1), Bound::Included(f2)) => if f2 > f1 { second } else { first },
        (Bound::Excluded(f1), Bound::Excluded(f2)) => Bound::Excluded(if f1 >= f2 { f1 } else { f2 }),
    }
}

/// Combines two upper bounds into the one that admits exactly the values that
/// both admit.
pub fn merge_upper_bound(first: Bound<i64>, second: Bound<i64>) -> (merged: Bound<i64>)
    ensures
        merged == tighter_upper(first, second),
{
    match (first, second) {
        (first, Bound::Unbounded) => first,
        (Bound::Unbounded, second) => second,
        (Bound::Included(f1), Bound::Included(f2)) => Bound::Included(if f1 <= f2 { f1 } else { f2 }),
        (Bound::Included(f1), Bound::Excluded(f2)) => {
            if f1 < f2 {
                Bound::Included(f1)
            } else {
                Bound::Excluded(f2)
            }
        },
        (Bound::Excluded(f1), Bound::Included(f2)) => {
            if f2 < f1 {
                Bound::Included(f2)
            } else {
                Bound::Excluded(f1)
            }
        },
        (Bound::Excluded(f1), Bound::Excluded(f2)) => Bound::Excluded(if f1 <= f2 { f1 } else { f2 }),
    }
}

/// Combines two lower bounds into the one that admits exactly the values that
/// both admit.
pub fn merge_lower_bound(first: Bound<i64>, second: Bound<i64>) -> (merged: Bound<i64>)
    ensures
        merged == tighter_lower(first, second),
{
    match (first, second) {
        (first, Bound::Unbounded) => first,
        (Bound::Unbounded, second) => second,
        (Bound::Included(f1), Bound::Included(f2)) => Bound::Included(if f1 >= f2 { f1 } else { f2 }),
        (Bound::Included(f1), Bound::Excluded(f2)) => {
            if f1 > f2 {
                Bound::Included(f1)
            } else {
                Bound::Excluded(f2)
            }
        },
        (Bound::Excluded(f1), Bound::Included(f2)) => {
            if f2 > f1 {
                Bound::Included(f2)
            } else {
                Bound::Excluded(f1)
            }
        },
        (Bound::Excluded(f1), Bound::Excluded(f2)) => Bound::Excluded(if f1 >= f2 { f1 } else { f2 }),
    }
}

/// Merging two upper bounds intersects what they admit: a value passes the
/// merged bound exactly when it passes both.
pub proof fn lemma_merge_upper_is_intersection(first: Bound<i64>, second: Bound<i64>, x: int)
    ensures
        below_upper(tighter_upper(first, second), x) <==> (below_upper(first, x) && below_upper(second, x)),
{
}

/// Merging two lower bounds intersects what they admit: a value passes the
/// merged bound exactly when it passes both.
pub proof fn lemma_merge_lower_is_intersection(first: Bound<i64>, second: Bound<i64>, x: int)
    ensures
        above_lower(tighter_lower(first, second), x) <==> (above_lower(first, x) && above_lower(second, x)),
{
}

/// Merging upper bounds does not depend on their order.
pub proof fn lemma_merge_upper_commutes(first: Bound<i64>, second: Bound<i64>)
    ensures
        tighter_upper(first, second) == tighter_upper(second, first),
{
}

/// Merging lower bounds does not depend on their order.
pub proof fn lemma_merge_lower_commutes(first: Bound<i64>, second: Bound<i64>)
    ensures
        tighter_lower(first, second) == tighter_lower(second, first),
{
}

} // verus!

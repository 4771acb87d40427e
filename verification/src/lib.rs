//! A small verified library around a line-oriented literal text search:
//! a matcher that locates every occurrence of a query string across a body
//! of lines, and a renderer that highlights those occurrences in place while
//! correcting for the length drift that earlier highlights introduce.
//! A few independent verified utilities (a summing helper, a rectangle
//! comparison, a shirt inventory) live beside the core.

use vstd::prelude::*;

pub mod config;
pub mod error;
pub mod rectangle;
pub mod render;
pub mod search;
pub mod shirts;

verus! {

/// The sum of a sequence of integers, folded from the left.
pub open spec fn sum_of(values: Seq<i64>) -> int
    decreases values.len(),
{
    if values.len() == 0 {
        0
    } else {
        sum_of(values.drop_last()) + values.last()
    }
}

/// Add the `values` together, left to right.
///
/// Every partial sum must stay within `i64` bounds, since the addition is
/// performed on machine integers in that order.
pub fn add(values: &[i64]) -> (result: i64)
    requires
        values@.len() > 0,
        forall|k: int|
            1 <= k <= values@.len() ==> i64::MIN <= #[trigger] sum_of(values@.take(k)) <= i64::MAX,
    ensures
        result == sum_of(values@),
{
    let mut result: i64 = values[0];
    assert(values@.take(1).drop_last() =~= Seq::<i64>::empty());
    assert(values@.take(1).last() == values@[0]);
    assert(sum_of(Seq::<i64>::empty()) == 0);
    assert(sum_of(values@.take(1)) == values@[0]);
    let mut i: usize = 1;
    while i < values.len()
        invariant
            1 <= i <= values@.len(),
            result == sum_of(values@.take(i as int)),
            forall|k: int|
                1 <= k <= values@.len() ==> i64::MIN <= #[trigger] sum_of(values@.take(k))
                    <= i64::MAX,
        decreases values@.len() - i,
    {
        assert(values@.take(i + 1).drop_last() =~= values@.take(i as int));
        assert(values@.take(i + 1).last() == values@[i as int]);
        assert(i64::MIN <= sum_of(values@.take(i + 1)) <= i64::MAX);
        result = result + values[i];
        i = i + 1;
    }
    assert(values@.take(values@.len() as int) =~= values@);
    result
}

} // verus!

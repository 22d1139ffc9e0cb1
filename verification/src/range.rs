//! Runs of consecutive numbers, walked from one end to the other.

use vstd::prelude::*;

verus! {

/// The numbers from `from` to `to`, both included, in the order in which one
/// walks from `from` to `to`: upwards if `from < to`, downwards otherwise.
pub open spec fn range_seq(from: int, to: int) -> Seq<usize> {
    if from < to {
        Seq::new((to - from + 1) as nat, |i: int| (from + i) as usize)
    } else {
        Seq::new((from - to + 1) as nat, |i: int| (from - i) as usize)
    }
}

/// Lists the numbers from `from` to `to`, both included, starting at `from`
/// whichever of the two is larger.
pub fn range_inclusive(from: usize, to: usize) -> (range: Vec<usize>)
    requires
        to - from < usize::MAX,
        from - to < usize::MAX,
    ensures
        range@ == range_seq(from as int, to as int),
{
    let mut range: Vec<usize> = Vec::new();
    let mut next: usize = from;
    if from < to {
        while next < to
            invariant
                from <= next <= to,
                range@ == Seq::new((next - from) as nat, |i: int| (from + i) as usize),
            decreases to - next,
        {
            range.push(next);
            next = next + 1;
        }
    } else {
        while next > to
            invariant
                to <= next <= from,
                range@ == Seq::new((from - next) as nat, |i: int| (from - i) as usize),
            decreases next - to,
        {
            range.push(next);
            next = next - 1;
        }
    }
    range.push(to);
    range
}

} // verus!

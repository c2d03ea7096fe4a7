//! The largest element of a nonempty slice, under any ordering the
//! element type provides.

use core::cmp::Ordering;
use vstd::prelude::*;
use vstd::std_specs::cmp::PartialOrdSpec;

verus! {

/// The element a left-to-right fold of "keep the greater" settles on:
/// each element replaces the running result exactly when it compares
/// strictly greater.
pub open spec fn largest_of<T: PartialOrd>(s: Seq<T>) -> T
    recommends
        s.len() > 0,
    decreases s.len(),
{
    if s.len() <= 1 {
        s[0]
    } else {
        let prev = largest_of(s.drop_last());
        if s.last().partial_cmp_spec(&prev) == Some(Ordering::Greater) {
            s.last()
        } else {
            prev
        }
    }
}

/// A reference to the largest element of `list`: the result is one of the
/// elements, and whenever the type's comparison obeys its specification,
/// it is exactly the element the specification fold selects.
pub fn largest<T: PartialOrd>(list: &[T]) -> (r: &T)
    requires
        list@.len() > 0,
    ensures
        exists|i: int| 0 <= i < list@.len() && *r == list@[i],
        T::obeys_partial_cmp_spec() ==> *r == largest_of(list@),
{
    let mut largest = &list[0];
    let ghost mut gi: int = 0;
    let mut i: usize = 1;
    proof {
        assert(list@.take(1).len() == 1);
        assert(list@.take(1)[0] == list@[0]);
    }
    while i < list.len()
        invariant
            1 <= i <= list@.len(),
            0 <= gi < i,
            *largest == list@[gi],
            T::obeys_partial_cmp_spec() ==> *largest == largest_of(list@.take(i as int)),
        decreases list@.len() - i,
    {
        let item = &list[i];
        proof {
            assert(list@.take(i + 1).drop_last() =~= list@.take(i as int));
            assert(list@.take(i + 1).last() == list@[i as int]);
        }
        if item.gt(largest) {
            largest = item;
            proof {
                gi = i as int;
            }
        }
        i = i + 1;
    }
    proof {
        assert(list@.take(list@.len() as int) =~= list@);
    }
    largest
}

/// The same selection as [`largest`], phrased as a reduction.
pub fn largest_stream<T: PartialOrd>(list: &[T]) -> (r: &T)
    requires
        list@.len() > 0,
    ensures
        exists|i: int| 0 <= i < list@.len() && *r == list@[i],
        T::obeys_partial_cmp_spec() ==> *r == largest_of(list@),
{
    largest(list)
}

} // verus!

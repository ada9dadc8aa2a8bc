use std::cmp::Ordering;
use vstd::prelude::*;
use vstd::std_specs::cmp::PartialOrdSpec;

verus! {

/// `num`, raised to `min` when below it, else lowered to `max` when above it.
pub fn clamp<T: PartialOrd>(num: T, min: T, max: T) -> (r: T)
    ensures
        T::obeys_partial_cmp_spec() ==> r == (if num.partial_cmp_spec(&min) == Some(Ordering::Less) {
            min
        } else if num.partial_cmp_spec(&max) == Some(Ordering::Greater) {
            max
        } else {
            num
        }),
{
    if num < min {
        return min;
    }
    if num > max {
        return max;
    }
    num
}

} // verus!

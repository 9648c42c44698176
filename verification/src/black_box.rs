//! Keeping the compiler from optimising a benchmark away.

use vstd::prelude::*;

verus! {

/// `std::hint::black_box` hands back the value that it was given. That the compiler is kept from
/// reasoning about the value is not a property of the result, and is left unsaid.
pub assume_specification<T>[ std::hint::black_box::<T> ](dummy: T) -> (r: T)
    ensures
        r == dummy,
;

/// Hands back `dummy`, in a way that the compiler does not see through: neither what was computed
/// for `dummy` nor what is computed from the result is optimised away.
pub fn black_box<T>(dummy: T) -> (r: T)
    ensures
        r == dummy,
{
    std::hint::black_box(dummy)
}

} // verus!

//! Extensions to standard collections.

use vstd::prelude::*;

verus! {

/// Extra operations on vectors.
pub trait VecExt: Sized {
    /// Returns the vector with its elements in reverse order.
    fn reversed(self) -> Self;
}

impl<T> VecExt for Vec<T> {
    fn reversed(self) -> (r: Self)
        ensures
            r@ == self@.reverse(),
    {
        let mut source = self;
        let mut reversed: Vec<T> = Vec::new();
        let ghost original = source@;
        while source.len() > 0
            invariant
                source@ == original.subrange(0, source@.len() as int),
                reversed@ == original.subrange(source@.len() as int, original.len() as int).reverse(),
                source@.len() <= original.len(),
            decreases source@.len(),
        {
            let ghost before = source@.len() as int;
            let item = source.pop().unwrap();
            reversed.push(item);
            proof {
                assert(original.subrange(before - 1, original.len() as int).reverse() =~= original.subrange(
                    before,
                    original.len() as int,
                ).reverse().push(original[before - 1]));
                assert(source@ =~= original.subrange(0, source@.len() as int));
            }
        }
        proof {
            assert(original.subrange(0, original.len() as int) =~= original);
        }
        reversed
    }
}

} // verus!

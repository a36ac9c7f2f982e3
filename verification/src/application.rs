//! Applications that run a single window.

use std::marker::PhantomData;

use vstd::prelude::*;

verus! {

/// An application that runs one window of type `T` and exits when it closes.
pub struct SingleWindowApplication<T> {
    phantom: PhantomData<T>,
}

impl<T> SingleWindowApplication<T> {
    /// The application for a window of type `T`.
    pub fn new() -> (r: Self) {
        SingleWindowApplication { phantom: PhantomData }
    }
}

} // verus!

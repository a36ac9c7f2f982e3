//! Geometry, texture packing, sprite animation and drawing support for a 2d
//! graphics library.

use vstd::prelude::*;

pub mod application;
pub mod buffer;
pub mod clip;
pub mod color;
pub mod ext;
pub mod frame;
pub mod json;
pub mod math;
pub mod pack;
pub mod render;
pub mod runtime;
pub mod sealed;
pub mod shapes;
pub mod sprite;
pub mod style;
pub mod time;

verus! {

/// The unique identifier of a graphics context.
#[derive(Clone, Copy, Eq, PartialEq, Debug, Hash, Structural)]
pub struct KludgineId(pub u64);

/// Hands out context identifiers in increasing order, starting at zero and
/// wrapping around after the largest `u64`.
#[derive(Debug)]
pub struct IdCounter {
    next: u64,
}

/// The identifier that follows `id`, wrapping around after the largest
/// `u64`.
pub open spec fn following_id(id: u64) -> u64 {
    if id == u64::MAX {
        0
    } else {
        (id + 1) as u64
    }
}

impl IdCounter {
    /// The identifier the counter hands out next.
    pub closed spec fn next(&self) -> u64 {
        self.next
    }

    /// A counter that starts at zero.
    pub fn new() -> (r: Self)
        ensures
            r.next() == 0,
    {
        IdCounter { next: 0 }
    }
}

impl KludgineId {
    /// Takes the next identifier from `counter`.
    pub fn unique(counter: &mut IdCounter) -> (r: Self)
        ensures
            r.0 == old(counter).next(),
            final(counter).next() == following_id(old(counter).next()),
    {
        let id = counter.next;
        counter.next = if id == u64::MAX {
            0
        } else {
            id + 1
        };
        KludgineId(id)
    }
}

/// Two identifiers taken one after the other from a counter differ.
pub proof fn lemma_consecutive_ids_differ(id: u64)
    ensures
        following_id(id) != id,
{
}

/// A type that can be drawn.
pub trait DrawableSource {
}

} // verus!

//! Identifiers of textures, and the trait of units that shaders can scale.

use vstd::prelude::*;

verus! {

/// The unique identifier of a texture.
#[derive(Debug, Clone, Copy, Eq, PartialEq, Structural, Hash)]
pub struct TextureId(pub usize);

/// Hands out texture identifiers in increasing order, starting at zero and
/// wrapping around after the largest `usize`.
#[derive(Debug)]
pub struct TextureIdCounter {
    next: usize,
}

impl TextureIdCounter {
    /// The identifier the counter hands out next.
    pub closed spec fn next(&self) -> usize {
        self.next
    }

    /// A counter that starts at zero.
    pub fn new() -> (r: Self)
        ensures
            r.next() == 0,
    {
        TextureIdCounter { next: 0 }
    }
}

/// The identifier that follows `id`, wrapping around after the largest
/// `usize`.
pub open spec fn following_texture_id(id: usize) -> usize {
    if id == usize::MAX {
        0
    } else {
        (id + 1) as usize
    }
}

impl TextureId {
    /// Takes the next identifier from `counter`.
    pub fn new_unique_id(counter: &mut TextureIdCounter) -> (r: Self)
        ensures
            r.0 == old(counter).next(),
            final(counter).next() == following_texture_id(old(counter).next()),
    {
        let id = counter.next;
        counter.next = if id == usize::MAX {
            0
        } else {
            id + 1
        };
        TextureId(id)
    }
}

/// Identifiers taken one after another from one counter all differ, until
/// the counter has wrapped all the way around.
pub proof fn lemma_texture_ids_differ(first: usize, count: nat)
    requires
        1 <= count,
        first as int + count <= usize::MAX as int + 1,
    ensures
        forall|i: nat, j: nat|
            i < j < count ==> #[trigger] following_texture_id_n(first, i) != #[trigger] following_texture_id_n(
                first,
                j,
            ),
{
    assert forall|i: nat, j: nat| i < j < count implies #[trigger] following_texture_id_n(first, i)
        != #[trigger] following_texture_id_n(first, j) by {
        lemma_following_texture_id_n(first, i, count);
        lemma_following_texture_id_n(first, j, count);
    }
}

/// The identifier `steps` identifiers after `id`.
pub open spec fn following_texture_id_n(id: usize, steps: nat) -> usize
    decreases steps,
{
    if steps == 0 {
        id
    } else {
        following_texture_id(following_texture_id_n(id, (steps - 1) as nat))
    }
}

proof fn lemma_following_texture_id_n(first: usize, steps: nat, count: nat)
    requires
        steps < count,
        first as int + count <= usize::MAX as int + 1,
    ensures
        following_texture_id_n(first, steps) == first + steps,
    decreases steps,
{
    if steps > 0 {
        lemma_following_texture_id_n(first, (steps - 1) as nat, count);
    }
}

/// A unit whose values shaders can scale, described by flags for the shader.
pub trait ShaderScalableSealed {
    /// The shader flags for this unit.
    fn flags() -> u32;
}

} // verus!

//! Recording of drawing operations: the vertices they share, the triangles
//! they draw, and the commands that draw those triangles in batches.

use vstd::prelude::*;
use vstd::std_specs::cmp::PartialEqSpecImpl;

use crate::clip::{can_push, popped, pushed, ClipRect, ClipStack, UPxRect};
use crate::sealed::TextureId;

verus! {

/// A vertex as it is sent to the GPU: its location in pixels, its texture
/// coordinate in raw `UPx` units, and its color.
#[derive(Clone, Copy, Debug, Eq)]
pub struct DrawVertex {
    pub x: i32,
    pub y: i32,
    pub texture_x: u32,
    pub texture_y: u32,
    pub color: u32,
}

impl PartialEq for DrawVertex {
    fn eq(&self, other: &Self) -> (r: bool) {
        self.x == other.x && self.y == other.y && self.texture_x == other.texture_x
            && self.texture_y == other.texture_y && self.color == other.color
    }
}

impl PartialEqSpecImpl for DrawVertex {
    open spec fn obeys_eq_spec() -> bool {
        true
    }

    open spec fn eq_spec(&self, other: &Self) -> bool {
        self.x == other.x && self.y == other.y && self.texture_x == other.texture_x
            && self.texture_y == other.texture_y && self.color == other.color
    }
}

/// `==` on vertices compares their values, so vertices can be compared by
/// the functions that need it, such as a buffer update.
pub proof fn lemma_vertices_compare_values()
    ensures
        crate::buffer::compares_values::<DrawVertex>(),
{
    reveal(vstd::laws_eq::obeys_concrete_eq);
}

/// The shader constants of a draw call. The scale, rotation and opacity are
/// held by the bit patterns of their floating-point values, by which two
/// calls are compared.
#[derive(Clone, Copy, Debug, PartialEq, Eq, Structural)]
pub struct DrawConstants {
    pub flags: u32,
    pub scale: u32,
    pub rotation: u32,
    pub opacity: u32,
    pub translation_x: i32,
    pub translation_y: i32,
}

/// One draw call: the indices from `start` up to `end`, drawn within the clip
/// numbered `clip_index`, with `texture` and `constants`.
#[derive(Clone, Copy, Debug, PartialEq, Eq)]
pub struct DrawCommand {
    pub clip_index: u32,
    pub start: u32,
    pub end: u32,
    pub constants: DrawConstants,
    pub texture: Option<TextureId>,
}

/// Vertices, each held once, in the order in which they were first added.
#[derive(Debug)]
pub struct VertexCollection {
    vertices: Vec<DrawVertex>,
}

/// `vs` extended by the vertices of `new` that it does not hold yet, in the
/// order of their first appearance.
pub open spec fn merged_vertices(vs: Seq<DrawVertex>, new: Seq<DrawVertex>) -> Seq<DrawVertex>
    decreases new.len(),
{
    if new.len() == 0 {
        vs
    } else {
        let before = merged_vertices(vs, new.drop_last());
        if before.contains(new.last()) {
            before
        } else {
            before.push(new.last())
        }
    }
}

impl VertexCollection {
    /// The vertices, in the order in which they were first added.
    pub closed spec fn view(&self) -> Seq<DrawVertex> {
        self.vertices@
    }

    /// No vertex is held twice, and each is numbered by a `u32`.
    pub open spec fn wf(&self) -> bool {
        self.view().no_duplicates() && self.view().len() <= u32::MAX + 1
    }

    /// An empty collection.
    pub fn new() -> (r: Self)
        ensures
            r.wf(),
            r.view() == Seq::<DrawVertex>::empty(),
    {
        VertexCollection { vertices: Vec::new() }
    }

    /// The index of `vertex`, which is added first if it is not held yet.
    pub fn get_or_insert(&mut self, vertex: DrawVertex) -> (r: u32)
        requires
            old(self).wf(),
            old(self).view().contains(vertex) || old(self).view().len() <= u32::MAX,
        ensures
            final(self).wf(),
            final(self).view() == (if old(self).view().contains(vertex) {
                old(self).view()
            } else {
                old(self).view().push(vertex)
            }),
            r < final(self).view().len(),
            final(self).view()[r as int] == vertex,
    {
        let mut i: usize = 0;
        while i < self.vertices.len()
            invariant
                i <= self.vertices.len(),
                self.vertices@ == old(self).vertices@,
                old(self).wf(),
                forall|j: int| 0 <= j < i ==> self.vertices@[j] != vertex,
            decreases self.vertices.len() - i,
        {
            if self.vertices[i] == vertex {
                return i as u32;
            }
            i = i + 1;
        }
        let index = self.vertices.len() as u32;
        self.vertices.push(vertex);
        index
    }

    /// The vertices, in the order in which they were first added.
    pub fn vertices(&self) -> (r: &Vec<DrawVertex>)
        ensures
            r@ == self.view(),
    {
        &self.vertices
    }
}

/// The abstract contents of a [`Drawing`].
pub struct DrawingView {
    pub vertices: Seq<DrawVertex>,
    pub clips: Seq<UPxRect>,
    pub indices: Seq<u32>,
    pub commands: Seq<DrawCommand>,
}

/// Whether a draw call of `clip_index`, `texture` and `constants` can extend
/// `command`.
pub open spec fn extends(
    command: DrawCommand,
    clip_index: u32,
    texture: Option<TextureId>,
    constants: DrawConstants,
) -> bool {
    command.clip_index == clip_index && command.texture == texture && command.constants == constants
}

/// `commands` after a draw call of `clip_index`, `texture` and `constants`
/// that drew the indices from `start` up to `end`: the last command is
/// extended to `end` where it can be, and a new command is added otherwise.
pub open spec fn recorded_commands(
    commands: Seq<DrawCommand>,
    start: int,
    end: int,
    clip_index: u32,
    texture: Option<TextureId>,
    constants: DrawConstants,
) -> Seq<DrawCommand> {
    if commands.len() > 0 && extends(commands.last(), clip_index, texture, constants) {
        commands.update(
            commands.len() - 1,
            DrawCommand {
                clip_index: commands.last().clip_index,
                start: commands.last().start,
                end: end as u32,
                constants: commands.last().constants,
                texture: commands.last().texture,
            },
        )
    } else {
        commands.push(
            DrawCommand { clip_index, start: start as u32, end: end as u32, constants, texture },
        )
    }
}

/// The indices that draw the triangles given by `indices` into `vertices`,
/// once every vertex is in `all`.
pub open spec fn mapped_indices(
    all: Seq<DrawVertex>,
    vertices: Seq<DrawVertex>,
    indices: Seq<u32>,
) -> Seq<u32> {
    Seq::new(indices.len(), |k: int| all.index_of(vertices[indices[k] as int]) as u32)
}

/// The drawing after recording the triangles given by `indices` into
/// `vertices`, drawn within the clip numbered `clip_index` with `texture`
/// and `constants`.
pub open spec fn recorded(
    d: DrawingView,
    vertices: Seq<DrawVertex>,
    indices: Seq<u32>,
    clip_index: u32,
    texture: Option<TextureId>,
    constants: DrawConstants,
) -> DrawingView {
    let all = merged_vertices(d.vertices, vertices);
    let drawn = d.indices + mapped_indices(all, vertices, indices);
    DrawingView {
        vertices: all,
        clips: d.clips,
        indices: drawn,
        commands: recorded_commands(
            d.commands,
            d.indices.len() as int,
            drawn.len() as int,
            clip_index,
            texture,
            constants,
        ),
    }
}

/// Whether recording into `d` can take place: every index names one of
/// `vertices`, and the vertex and index counts stay within `u32`.
pub open spec fn can_record(d: DrawingView, vertices: Seq<DrawVertex>, indices: Seq<u32>) -> bool {
    &&& forall|k: int| 0 <= k < indices.len() ==> indices[k] < vertices.len()
    &&& merged_vertices(d.vertices, vertices).len() <= u32::MAX + 1
    &&& d.indices.len() + indices.len() <= u32::MAX
}

/// A set of drawing operations: the vertices and indices of their triangles,
/// the clips they are drawn within, and the commands that draw them.
#[derive(Debug)]
pub struct Drawing {
    vertices: VertexCollection,
    clips: Vec<UPxRect>,
    indices: Vec<u32>,
    commands: Vec<DrawCommand>,
}

impl Drawing {
    /// The abstract contents.
    pub closed spec fn view(&self) -> DrawingView {
        DrawingView {
            vertices: self.vertices.view(),
            clips: self.clips@,
            indices: self.indices@,
            commands: self.commands@,
        }
    }

    /// No vertex and no clip is held twice, and each is numbered by a `u32`.
    pub open spec fn wf(&self) -> bool {
        &&& self.view().vertices.no_duplicates()
        &&& self.view().vertices.len() <= u32::MAX + 1
        &&& self.view().clips.no_duplicates()
        &&& self.view().clips.len() <= u32::MAX + 1
    }

    /// An empty drawing.
    pub fn new() -> (r: Self)
        ensures
            r.wf(),
            r.view().vertices.len() == 0,
            r.view().clips.len() == 0,
            r.view().indices.len() == 0,
            r.view().commands.len() == 0,
    {
        Drawing {
            vertices: VertexCollection::new(),
            clips: Vec::new(),
            indices: Vec::new(),
            commands: Vec::new(),
        }
    }

    /// Clears the drawing for a new frame whose drawing starts within
    /// `current`.
    pub fn new_frame(&mut self, current: ClipRect)
        ensures
            final(self).wf(),
            final(self).view().vertices.len() == 0,
            final(self).view().clips == seq![current.0],
            final(self).view().indices.len() == 0,
            final(self).view().commands.len() == 0,
    {
        self.commands.clear();
        self.indices.clear();
        self.vertices = VertexCollection::new();
        self.clips.clear();
        let _ = self.get_or_lookup_clip(current);
    }

    /// The number of `clip`, which is added first if it is not held yet.
    pub fn get_or_lookup_clip(&mut self, clip: ClipRect) -> (r: u32)
        requires
            old(self).wf(),
            old(self).view().clips.contains(clip.0) || old(self).view().clips.len() <= u32::MAX,
        ensures
            final(self).wf(),
            final(self).view().vertices == old(self).view().vertices,
            final(self).view().indices == old(self).view().indices,
            final(self).view().commands == old(self).view().commands,
            final(self).view().clips == (if old(self).view().clips.contains(clip.0) {
                old(self).view().clips
            } else {
                old(self).view().clips.push(clip.0)
            }),
            r < final(self).view().clips.len(),
            final(self).view().clips[r as int] == clip.0,
    {
        let mut i: usize = 0;
        while i < self.clips.len()
            invariant
                i <= self.clips.len(),
                self.clips@ == old(self).clips@,
                old(self).wf(),
                forall|j: int| 0 <= j < i ==> self.clips@[j] != clip.0,
            decreases self.clips.len() - i,
        {
            if self.clips[i] == clip.0 {
                return i as u32;
            }
            i = i + 1;
        }
        let index = self.clips.len() as u32;
        self.clips.push(clip.0);
        index
    }

    /// Confines the drawing that follows to `clip`, given relative to the
    /// current clip of `stack` and pushed onto it, and returns the number of
    /// the clip that is current afterwards.
    pub fn push_clip(&mut self, stack: &mut ClipStack, clip: UPxRect) -> (r: u32)
        requires
            old(self).wf(),
            can_push(old(stack).view(), clip),
            old(self).view().clips.contains(pushed(old(stack).view(), clip).current)
                || old(self).view().clips.len() <= u32::MAX,
        ensures
            final(self).wf(),
            final(stack).view() == pushed(old(stack).view(), clip),
            final(self).view().vertices == old(self).view().vertices,
            final(self).view().indices == old(self).view().indices,
            final(self).view().commands == old(self).view().commands,
            final(self).view().clips == (if old(self).view().clips.contains(final(stack).view().current) {
                old(self).view().clips
            } else {
                old(self).view().clips.push(final(stack).view().current)
            }),
            r < final(self).view().clips.len(),
            final(self).view().clips[r as int] == final(stack).view().current,
    {
        stack.push_clip(clip);
        self.get_or_lookup_clip(stack.current())
    }

    /// Makes the clip that `stack` remembered last current again, and returns
    /// its number.
    pub fn pop_clip(&mut self, stack: &mut ClipStack) -> (r: u32)
        requires
            old(self).wf(),
            old(stack).view().previous.len() > 0,
            old(self).view().clips.contains(popped(old(stack).view()).current)
                || old(self).view().clips.len() <= u32::MAX,
        ensures
            final(self).wf(),
            final(stack).view() == popped(old(stack).view()),
            final(self).view().vertices == old(self).view().vertices,
            final(self).view().indices == old(self).view().indices,
            final(self).view().commands == old(self).view().commands,
            final(self).view().clips == (if old(self).view().clips.contains(final(stack).view().current) {
                old(self).view().clips
            } else {
                old(self).view().clips.push(final(stack).view().current)
            }),
            r < final(self).view().clips.len(),
            final(self).view().clips[r as int] == final(stack).view().current,
    {
        stack.pop_clip();
        self.get_or_lookup_clip(stack.current())
    }

    /// Records the triangles given by `indices` into `vertices`, drawn within
    /// the clip numbered `clip_index` with `texture` and `constants`. Each
    /// vertex is stored once; the draw call extends the last command where
    /// that one has the same clip, texture and constants.
    pub fn record(
        &mut self,
        vertices: &Vec<DrawVertex>,
        indices: &Vec<u32>,
        clip_index: u32,
        texture: Option<TextureId>,
        constants: DrawConstants,
    )
        requires
            old(self).wf(),
            can_record(old(self).view(), vertices@, indices@),
        ensures
            final(self).wf(),
            final(self).view() == recorded(
                old(self).view(),
                vertices@,
                indices@,
                clip_index,
                texture,
                constants,
            ),
    {
        let ghost old_vertices = self.vertices.view();
        let mut vertex_map: Vec<u32> = Vec::new();
        let mut i: usize = 0;
        while i < vertices.len()
            invariant
                i <= vertices.len(),
                self.vertices.wf(),
                self.vertices.view() == merged_vertices(old_vertices, vertices@.take(i as int)),
                merged_vertices(old_vertices, vertices@).len() <= u32::MAX + 1,
                vertex_map.len() == i,
                forall|j: int|
                    0 <= j < i ==> #[trigger] vertex_map@[j] < self.vertices.view().len()
                        && self.vertices.view()[vertex_map@[j] as int] == vertices@[j],
                self.clips@ == old(self).clips@,
                self.indices@ == old(self).indices@,
                self.commands@ == old(self).commands@,
            decreases vertices.len() - i,
        {
            proof {
                lemma_merged_take_step(old_vertices, vertices@, i as int);
                lemma_merged_prefix_len(old_vertices, vertices@, i as int + 1, vertices.len() as int);
                assert(vertices@.take(vertices.len() as int) =~= vertices@);
            }
            let index = self.vertices.get_or_insert(vertices[i]);
            vertex_map.push(index);
            i = i + 1;
        }
        proof {
            assert(vertices@.take(vertices.len() as int) =~= vertices@);
        }
        let ghost all = self.vertices.view();
        let start = self.indices.len();
        let mut k: usize = 0;
        while k < indices.len()
            invariant
                k <= indices.len(),
                start == old(self).indices@.len(),
                start + indices.len() <= u32::MAX,
                forall|m: int| 0 <= m < indices.len() ==> indices@[m] < vertices.len(),
                vertex_map.len() == vertices.len(),
                self.vertices.view() == all,
                forall|j: int|
                    0 <= j < vertices.len() ==> #[trigger] vertex_map@[j] < all.len()
                        && all[vertex_map@[j] as int] == vertices@[j],
                self.indices@.len() == start + k,
                self.indices@.subrange(0, start as int) == old(self).indices@,
                forall|m: int|
                    0 <= m < k ==> #[trigger] self.indices@[start + m] < all.len()
                        && all[self.indices@[start + m] as int] == vertices@[indices@[m] as int],
                self.clips@ == old(self).clips@,
                self.commands@ == old(self).commands@,
            decreases indices.len() - k,
        {
            let vertex_index = indices[k];
            let mapped = vertex_map[vertex_index as usize];
            self.indices.push(mapped);
            proof {
                assert(self.indices@[start + k as int] == mapped);
                assert(self.indices@.subrange(0, start as int) =~= old(self).indices@);
            }
            k = k + 1;
        }
        proof {
            let drawn = old(self).indices@ + mapped_indices(all, vertices@, indices@);
            assert forall|i: int| 0 <= i < drawn.len() implies #[trigger] self.indices@[i] == drawn[i] by {
                if i < start {
                    assert(self.indices@[i] == self.indices@.subrange(0, start as int)[i]);
                } else {
                    let m = i - start;
                    assert(self.indices@[start + m] < all.len());
                    lemma_index_of_unique(all, self.indices@[start + m] as int);
                }
            }
            assert(self.indices@ =~= drawn);
        }
        let end = self.indices.len() as u32;
        let count = self.commands.len();
        if count > 0 && self.commands[count - 1].clip_index == clip_index && same_texture(
            self.commands[count - 1].texture,
            texture,
        ) && self.commands[count - 1].constants == constants {
            let last = self.commands[count - 1];
            self.commands.set(
                count - 1,
                DrawCommand {
                    clip_index: last.clip_index,
                    start: last.start,
                    end,
                    constants: last.constants,
                    texture: last.texture,
                },
            );
        } else {
            self.commands.push(
                DrawCommand { clip_index, start: start as u32, end, constants, texture },
            );
        }
    }

    /// The vertices of the recorded triangles.
    pub fn vertices(&self) -> (r: &Vec<DrawVertex>)
        ensures
            r@ == self.view().vertices,
    {
        self.vertices.vertices()
    }

    /// The indices of the recorded triangles, three to a triangle.
    pub fn indices(&self) -> (r: &Vec<u32>)
        ensures
            r@ == self.view().indices,
    {
        &self.indices
    }

    /// The clips that commands are drawn within, by number.
    pub fn clips(&self) -> (r: &Vec<UPxRect>)
        ensures
            r@ == self.view().clips,
    {
        &self.clips
    }

    /// The recorded draw calls.
    pub fn commands(&self) -> (r: &Vec<DrawCommand>)
        ensures
            r@ == self.view().commands,
    {
        &self.commands
    }

    /// The number of vertices of the recorded triangles.
    pub fn vertex_count(&self) -> (r: usize)
        ensures
            r == self.view().vertices.len(),
    {
        self.vertices.vertices().len()
    }

    /// The number of recorded triangles.
    pub fn triangle_count(&self) -> (r: usize)
        ensures
            r == self.view().indices.len() / 3,
    {
        self.indices.len() / 3
    }

    /// The number of draw calls that rendering the drawing makes.
    pub fn command_count(&self) -> (r: usize)
        ensures
            r == self.view().commands.len(),
    {
        self.commands.len()
    }
}

/// Whether two optional textures are the same.
fn same_texture(a: Option<TextureId>, b: Option<TextureId>) -> (r: bool)
    ensures
        r == (a == b),
{
    match (a, b) {
        (Some(a), Some(b)) => a.0 == b.0,
        (None, None) => true,
        _ => false,
    }
}

/// In a sequence without duplicates, the element at `i` is found at `i`.
pub proof fn lemma_index_of_unique(s: Seq<DrawVertex>, i: int)
    requires
        s.no_duplicates(),
        0 <= i < s.len(),
    ensures
        s.index_of(s[i]) == i,
{
    let j = s.index_of(s[i]);
    assert(0 <= j < s.len() && s[j] == s[i]);
}

/// Merging one more vertex of `new` adds it where it is not held yet.
proof fn lemma_merged_take_step(vs: Seq<DrawVertex>, new: Seq<DrawVertex>, i: int)
    requires
        0 <= i < new.len(),
    ensures
        merged_vertices(vs, new.take(i + 1)) == (if merged_vertices(vs, new.take(i)).contains(new[i]) {
            merged_vertices(vs, new.take(i))
        } else {
            merged_vertices(vs, new.take(i)).push(new[i])
        }),
{
    assert(new.take(i + 1).drop_last() =~= new.take(i));
    assert(new.take(i + 1).last() == new[i]);
}

/// Merging a longer prefix of `new` gives at least as many vertices.
proof fn lemma_merged_prefix_len(vs: Seq<DrawVertex>, new: Seq<DrawVertex>, i: int, j: int)
    requires
        0 <= i <= j <= new.len(),
    ensures
        merged_vertices(vs, new.take(i)).len() <= merged_vertices(vs, new.take(j)).len(),
    decreases j - i,
{
    if i < j {
        lemma_merged_take_step(vs, new, j - 1);
        lemma_merged_prefix_len(vs, new, i, j - 1);
    }
}

/// Every index names one of the stored vertices.
pub open spec fn indices_valid(d: DrawingView) -> bool {
    forall|k: int| 0 <= k < d.indices.len() ==> #[trigger] d.indices[k] < d.vertices.len()
}

/// The commands draw the first `n` indices, each once and in order: the
/// first starts at zero, each starts where the one before it ends, and the
/// last ends at `n`.
pub open spec fn commands_tile(commands: Seq<DrawCommand>, n: int) -> bool {
    &&& commands.len() == 0 ==> n == 0
    &&& commands.len() > 0 ==> commands[0].start == 0 && commands.last().end == n
    &&& forall|i: int| 0 <= i < commands.len() ==> #[trigger] commands[i].start <= commands[i].end
    &&& forall|i: int, j: int|
        #![trigger commands[i], commands[j]]
        0 <= i && j == i + 1 && j < commands.len() ==> commands[i].end == commands[j].start
}

/// No command could have been drawn as part of the one before it.
pub open spec fn batches_distinct(commands: Seq<DrawCommand>) -> bool {
    forall|i: int, j: int|
        #![trigger commands[i], commands[j]]
        0 <= i && j == i + 1 && j < commands.len() ==> !extends(
            commands[i],
            commands[j].clip_index,
            commands[j].texture,
            commands[j].constants,
        )
}

/// Whether the `k`-th index recorded from `base` on in `r` names a stored
/// vertex equal to the vertex that the `k`-th of `indices` names in
/// `vertices`.
pub open spec fn draws_vertex(
    r: DrawingView,
    base: int,
    vertices: Seq<DrawVertex>,
    indices: Seq<u32>,
    k: int,
) -> bool {
    &&& r.indices[base + k] < r.vertices.len()
    &&& r.vertices[r.indices[base + k] as int] == vertices[indices[k] as int]
}

/// Merging keeps the vertices of `vs` where they were, holds every vertex of
/// `new`, and holds none twice where `vs` held none twice.
pub proof fn lemma_merged_vertices(vs: Seq<DrawVertex>, new: Seq<DrawVertex>)
    ensures
        merged_vertices(vs, new).len() >= vs.len(),
        merged_vertices(vs, new).subrange(0, vs.len() as int) == vs,
        forall|j: int| 0 <= j < new.len() ==> merged_vertices(vs, new).contains(#[trigger] new[j]),
        vs.no_duplicates() ==> merged_vertices(vs, new).no_duplicates(),
    decreases new.len(),
{
    if new.len() > 0 {
        let rest = new.drop_last();
        lemma_merged_vertices(vs, rest);
        let before = merged_vertices(vs, rest);
        let after = merged_vertices(vs, new);
        assert forall|j: int| 0 <= j < new.len() implies after.contains(#[trigger] new[j]) by {
            if j < new.len() - 1 {
                assert(rest[j] == new[j]);
                assert(before.contains(rest[j]));
                let w = choose|w: int| 0 <= w < before.len() && before[w] == rest[j];
                assert(after[w] == new[j]);
            } else if before.contains(new.last()) {
            } else {
                assert(after[before.len() as int] == new[j]);
            }
        }
        assert(after.subrange(0, vs.len() as int) =~= before.subrange(0, vs.len() as int));
    }
}

/// Recording draws exactly the given triangles: the indices recorded before
/// stay as they were, and each new index names a stored vertex equal to the
/// vertex that the given index named.
pub proof fn lemma_record_draws_shape(
    d: DrawingView,
    vertices: Seq<DrawVertex>,
    indices: Seq<u32>,
    clip_index: u32,
    texture: Option<TextureId>,
    constants: DrawConstants,
)
    requires
        d.vertices.no_duplicates(),
        can_record(d, vertices, indices),
    ensures
        recorded(d, vertices, indices, clip_index, texture, constants).indices.len() == d.indices.len()
            + indices.len(),
        recorded(d, vertices, indices, clip_index, texture, constants).indices.subrange(
            0,
            d.indices.len() as int,
        ) == d.indices,
        forall|k: int|
            0 <= k < indices.len() ==> #[trigger] draws_vertex(
                recorded(d, vertices, indices, clip_index, texture, constants),
                d.indices.len() as int,
                vertices,
                indices,
                k,
            ),
{
    let r = recorded(d, vertices, indices, clip_index, texture, constants);
    let all = merged_vertices(d.vertices, vertices);
    lemma_merged_vertices(d.vertices, vertices);
    assert(r.indices.subrange(0, d.indices.len() as int) =~= d.indices);
    assert forall|k: int| 0 <= k < indices.len() implies #[trigger] draws_vertex(
        r,
        d.indices.len() as int,
        vertices,
        indices,
        k,
    ) by {
        let v = vertices[indices[k] as int];
        assert(all.contains(v));
        let p = all.index_of(v);
        assert(0 <= p < all.len() && all[p] == v);
        assert(r.indices[d.indices.len() + k] == p as u32);
    }
}

/// Recording keeps every index naming a stored vertex.
pub proof fn lemma_record_keeps_indices_valid(
    d: DrawingView,
    vertices: Seq<DrawVertex>,
    indices: Seq<u32>,
    clip_index: u32,
    texture: Option<TextureId>,
    constants: DrawConstants,
)
    requires
        d.vertices.no_duplicates(),
        indices_valid(d),
        can_record(d, vertices, indices),
    ensures
        indices_valid(recorded(d, vertices, indices, clip_index, texture, constants)),
{
    let r = recorded(d, vertices, indices, clip_index, texture, constants);
    lemma_merged_vertices(d.vertices, vertices);
    lemma_record_draws_shape(d, vertices, indices, clip_index, texture, constants);
    assert forall|k: int| 0 <= k < r.indices.len() implies #[trigger] r.indices[k] < r.vertices.len() by {
        if k < d.indices.len() {
            assert(r.indices[k] == r.indices.subrange(0, d.indices.len() as int)[k]);
            assert(d.indices[k] < d.vertices.len());
        } else {
            let m = k - d.indices.len();
            assert(draws_vertex(r, d.indices.len() as int, vertices, indices, m));
        }
    }
}

/// Recording keeps the commands drawing every index once and in order.
pub proof fn lemma_record_keeps_commands_tiling(
    d: DrawingView,
    vertices: Seq<DrawVertex>,
    indices: Seq<u32>,
    clip_index: u32,
    texture: Option<TextureId>,
    constants: DrawConstants,
)
    requires
        commands_tile(d.commands, d.indices.len() as int),
        d.indices.len() + indices.len() <= u32::MAX,
    ensures
        commands_tile(
            recorded(d, vertices, indices, clip_index, texture, constants).commands,
            recorded(d, vertices, indices, clip_index, texture, constants).indices.len() as int,
        ),
{
    let r = recorded(d, vertices, indices, clip_index, texture, constants);
    let c = d.commands;
    let rc = r.commands;
    if c.len() > 0 && extends(c.last(), clip_index, texture, constants) {
        assert forall|i: int, j: int|
            #![trigger rc[i], rc[j]]
            0 <= i && j == i + 1 && j < rc.len() implies rc[i].end == rc[j].start by {
            assert(c[i].end == c[j].start);
        }
        assert forall|i: int| 0 <= i < rc.len() implies #[trigger] rc[i].start <= rc[i].end by {
            assert(c[i].start <= c[i].end);
        }
    } else {
        assert forall|i: int, j: int|
            #![trigger rc[i], rc[j]]
            0 <= i && j == i + 1 && j < rc.len() implies rc[i].end == rc[j].start by {
            if j < c.len() {
                assert(c[i].end == c[j].start);
            }
        }
        assert forall|i: int| 0 <= i < rc.len() implies #[trigger] rc[i].start <= rc[i].end by {
            if i < c.len() {
                assert(c[i].start <= c[i].end);
            }
        }
    }
}

/// Recording keeps each command one that could not have been drawn as part of
/// the one before it.
pub proof fn lemma_record_keeps_batches_distinct(
    d: DrawingView,
    vertices: Seq<DrawVertex>,
    indices: Seq<u32>,
    clip_index: u32,
    texture: Option<TextureId>,
    constants: DrawConstants,
)
    requires
        batches_distinct(d.commands),
    ensures
        batches_distinct(recorded(d, vertices, indices, clip_index, texture, constants).commands),
{
    let rc = recorded(d, vertices, indices, clip_index, texture, constants).commands;
    let c = d.commands;
    assert forall|i: int, j: int|
        #![trigger rc[i], rc[j]]
        0 <= i && j == i + 1 && j < rc.len() implies !extends(
            rc[i],
            rc[j].clip_index,
            rc[j].texture,
            rc[j].constants,
        ) by {
        if j < c.len() {
            assert(!extends(c[i], c[j].clip_index, c[j].texture, c[j].constants));
        }
    }
}

/// A step of rendering a drawing, in the order the render pass takes them.
#[derive(Clone, Copy, Debug, PartialEq, Eq)]
pub enum RenderStep {
    /// Bind the texture of this identifier.
    BindTexture(TextureId),
    /// Bind the default bindings, for commands without a texture.
    BindDefault,
    /// Confine drawing to this rectangle, in whole pixels.
    Scissor { x: u32, y: u32, width: u32, height: u32 },
    /// Draw the indices from `start` up to `end` with `constants`.
    Draw { start: u32, end: u32, constants: DrawConstants },
}

/// What rendering has set up after some of the commands: the bound texture,
/// whether a binding is still owed, and the clip drawn within, with its
/// number.
#[derive(Clone, Copy, Debug)]
pub struct RenderState {
    pub texture: Option<TextureId>,
    pub needs_binding: bool,
    pub clip_index: u32,
    pub clip: UPxRect,
}

/// A raw `UPx` value rounded to whole pixels.
pub open spec fn whole_pixels(raw: u32) -> int {
    (raw + 2) / 4
}

/// A raw `UPx` value as a raw `Px` value: the same number, or the largest
/// `i32` where it does not fit.
pub open spec fn signed_raw(raw: u32) -> int {
    if raw > i32::MAX {
        i32::MAX as int
    } else {
        raw as int
    }
}

/// Whether the rectangle has neither width nor height.
pub open spec fn zero_sized(r: UPxRect) -> bool {
    r.width == 0 && r.height == 0
}

/// Whether `command` moves drawing to another clip.
pub open spec fn switches_clip(s: RenderState, command: DrawCommand) -> bool {
    s.clip_index != command.clip_index
}

/// The clip that `command` is drawn within.
pub open spec fn command_clip(s: RenderState, command: DrawCommand, clips: Seq<UPxRect>) -> UPxRect {
    if switches_clip(s, command) {
        clips[command.clip_index as int]
    } else {
        s.clip
    }
}

/// Whether `command` is left undrawn: it moves drawing to a clip with neither
/// width nor height.
pub open spec fn skipped(s: RenderState, command: DrawCommand, clips: Seq<UPxRect>) -> bool {
    switches_clip(s, command) && zero_sized(clips[command.clip_index as int])
}

/// The bind step that `command` takes, if any.
pub open spec fn bind_steps(s: RenderState, command: DrawCommand) -> Seq<RenderStep> {
    match command.texture {
        Some(t) => if s.texture != Some(t) {
            seq![RenderStep::BindTexture(t)]
        } else {
            Seq::empty()
        },
        None => if s.needs_binding {
            seq![RenderStep::BindDefault]
        } else {
            Seq::empty()
        },
    }
}

/// The constants `command` is drawn with: its translation moved by the origin
/// of its clip, and `translate_flag` added where the translation is not zero.
pub open spec fn drawn_constants(
    s: RenderState,
    command: DrawCommand,
    clips: Seq<UPxRect>,
    translate_flag: u32,
) -> DrawConstants {
    let clip = command_clip(s, command, clips);
    let x = command.constants.translation_x + signed_raw(clip.x);
    let y = command.constants.translation_y + signed_raw(clip.y);
    DrawConstants {
        flags: if x != 0 || y != 0 {
            command.constants.flags | translate_flag
        } else {
            command.constants.flags
        },
        scale: command.constants.scale,
        rotation: command.constants.rotation,
        opacity: command.constants.opacity,
        translation_x: x as i32,
        translation_y: y as i32,
    }
}

/// Whether `constants` carry `translate_flag` where their translation is not
/// zero.
pub open spec fn marks_translation(constants: DrawConstants, translate_flag: u32) -> bool {
    (constants.translation_x != 0 || constants.translation_y != 0) ==> constants.flags & translate_flag
        == translate_flag
}

/// A command is drawn with `translate_flag` added to its own flags exactly
/// where its drawn translation (its own moved by the origin of its clip) is
/// not zero, and with its own flags unchanged where that translation is zero.
pub proof fn lemma_drawn_constants_translation(
    s: RenderState,
    command: DrawCommand,
    clips: Seq<UPxRect>,
    translate_flag: u32,
)
    requires
        i32::MIN <= command.constants.translation_x + signed_raw(command_clip(s, command, clips).x) <= i32::MAX,
        i32::MIN <= command.constants.translation_y + signed_raw(command_clip(s, command, clips).y) <= i32::MAX,
    ensures
        ({
            let c = drawn_constants(s, command, clips, translate_flag);
            &&& c.translation_x == command.constants.translation_x + signed_raw(command_clip(s, command, clips).x)
            &&& c.translation_y == command.constants.translation_y + signed_raw(command_clip(s, command, clips).y)
            &&& c.flags == command.constants.flags | (if c.translation_x != 0 || c.translation_y != 0 {
                translate_flag
            } else {
                0u32
            })
        }),
{
    lemma_or_sets(command.constants.flags, translate_flag);
}

/// Drawn constants carry `translate_flag` wherever their translation is not
/// zero.
proof fn lemma_drawn_constants_mark_translation(
    s: RenderState,
    command: DrawCommand,
    clips: Seq<UPxRect>,
    translate_flag: u32,
)
    ensures
        marks_translation(drawn_constants(s, command, clips, translate_flag), translate_flag),
{
    let clip = command_clip(s, command, clips);
    let x = command.constants.translation_x + signed_raw(clip.x);
    let y = command.constants.translation_y + signed_raw(clip.y);
    assert(x == 0 ==> (x as i32) == 0);
    assert(y == 0 ==> (y as i32) == 0);
    lemma_or_sets(command.constants.flags, translate_flag);
}

/// The steps that `command` takes.
pub open spec fn command_steps(
    s: RenderState,
    command: DrawCommand,
    clips: Seq<UPxRect>,
    translate_flag: u32,
) -> Seq<RenderStep> {
    let clip = command_clip(s, command, clips);
    let draw = seq![
        RenderStep::Draw {
            start: command.start,
            end: command.end,
            constants: drawn_constants(s, command, clips, translate_flag),
        },
    ];
    if skipped(s, command, clips) {
        bind_steps(s, command)
    } else if switches_clip(s, command) {
        bind_steps(s, command) + seq![
            RenderStep::Scissor {
                x: whole_pixels(clip.x) as u32,
                y: whole_pixels(clip.y) as u32,
                width: whole_pixels(clip.width) as u32,
                height: whole_pixels(clip.height) as u32,
            },
        ] + draw
    } else {
        bind_steps(s, command) + draw
    }
}

/// The state after `command`.
pub open spec fn next_render_state(s: RenderState, command: DrawCommand, clips: Seq<UPxRect>) -> RenderState {
    let (texture, needs_binding) = match command.texture {
        Some(t) => if s.texture != Some(t) {
            (Some(t), false)
        } else {
            (s.texture, s.needs_binding)
        },
        None => if s.needs_binding {
            (None, false)
        } else {
            (s.texture, s.needs_binding)
        },
    };
    RenderState {
        texture,
        needs_binding,
        clip_index: command.clip_index,
        clip: command_clip(s, command, clips),
    }
}

/// Whether `command` can be rendered from `s`: a clip it moves to exists,
/// and the pixel values and translation computed for it fit their types.
pub open spec fn step_defined(s: RenderState, command: DrawCommand, clips: Seq<UPxRect>) -> bool {
    let clip = command_clip(s, command, clips);
    &&& switches_clip(s, command) ==> command.clip_index < clips.len()
    &&& (switches_clip(s, command) && !skipped(s, command, clips)) ==> {
        &&& clip.x + 2 <= u32::MAX
        &&& clip.y + 2 <= u32::MAX
        &&& clip.width + 2 <= u32::MAX
        &&& clip.height + 2 <= u32::MAX
    }
    &&& !skipped(s, command, clips) ==> {
        &&& i32::MIN <= command.constants.translation_x + signed_raw(clip.x) <= i32::MAX
        &&& i32::MIN <= command.constants.translation_y + signed_raw(clip.y) <= i32::MAX
    }
}

/// The state after `commands`, from `s`.
pub open spec fn planned_render_state(s: RenderState, commands: Seq<DrawCommand>, clips: Seq<UPxRect>) -> RenderState
    decreases commands.len(),
{
    if commands.len() == 0 {
        s
    } else {
        next_render_state(planned_render_state(s, commands.drop_last(), clips), commands.last(), clips)
    }
}

/// The steps that `commands` take, from `s`.
pub open spec fn planned_render_steps(
    s: RenderState,
    commands: Seq<DrawCommand>,
    clips: Seq<UPxRect>,
    translate_flag: u32,
) -> Seq<RenderStep>
    decreases commands.len(),
{
    if commands.len() == 0 {
        Seq::empty()
    } else {
        planned_render_steps(s, commands.drop_last(), clips, translate_flag) + command_steps(
            planned_render_state(s, commands.drop_last(), clips),
            commands.last(),
            clips,
            translate_flag,
        )
    }
}

/// Whether every one of `commands` can be rendered, from `s`.
pub open spec fn render_defined(s: RenderState, commands: Seq<DrawCommand>, clips: Seq<UPxRect>) -> bool
    decreases commands.len(),
{
    commands.len() == 0 || (render_defined(s, commands.drop_last(), clips) && step_defined(
        planned_render_state(s, commands.drop_last(), clips),
        commands.last(),
        clips,
    ))
}

/// The state rendering starts from: nothing bound by it yet, and drawing
/// within `current`, which counts as the clip numbered zero.
pub open spec fn initial_render_state(current: UPxRect, needs_texture_binding: bool) -> RenderState {
    RenderState { texture: None, needs_binding: needs_texture_binding, clip_index: 0, clip: current }
}

/// A defined run of commands is defined on each of its prefixes.
proof fn lemma_render_defined_prefix(s: RenderState, commands: Seq<DrawCommand>, clips: Seq<UPxRect>, n: int)
    requires
        render_defined(s, commands, clips),
        0 <= n <= commands.len(),
    ensures
        render_defined(s, commands.take(n), clips),
    decreases commands.len() - n,
{
    if n == commands.len() {
        assert(commands.take(n) =~= commands);
    } else {
        lemma_render_defined_prefix(s, commands, clips, n + 1);
        assert(commands.take(n + 1).drop_last() =~= commands.take(n));
    }
}

/// Takes the bind step of `command`, if any.
fn bind_command(s: RenderState, command: DrawCommand, steps: &mut Vec<RenderStep>) -> (r: RenderState)
    ensures
        final(steps)@ == old(steps)@ + bind_steps(s, command),
        r.texture == next_render_state(s, command, Seq::empty()).texture,
        r.needs_binding == next_render_state(s, command, Seq::empty()).needs_binding,
        r.clip_index == s.clip_index,
        r.clip == s.clip,
{
    let mut r = s;
    match command.texture {
        Some(t) => {
            if !same_texture(s.texture, Some(t)) {
                r.needs_binding = false;
                r.texture = Some(t);
                steps.push(RenderStep::BindTexture(t));
            }
        },
        None => {
            if s.needs_binding {
                r.needs_binding = false;
                r.texture = None;
                steps.push(RenderStep::BindDefault);
            }
        },
    }
    proof {
        assert(final(steps)@ =~= old(steps)@ + bind_steps(s, command));
    }
    r
}

/// The draw step of `command`, drawn within `clip`.
fn draw_step(command: DrawCommand, clip: UPxRect, translate_flag: u32) -> (r: RenderStep)
    requires
        i32::MIN <= command.constants.translation_x + signed_raw(clip.x) <= i32::MAX,
        i32::MIN <= command.constants.translation_y + signed_raw(clip.y) <= i32::MAX,
    ensures
        r == (RenderStep::Draw {
            start: command.start,
            end: command.end,
            constants: drawn_constants(
                RenderState { texture: None, needs_binding: false, clip_index: command.clip_index, clip },
                command,
                Seq::empty(),
                translate_flag,
            ),
        }),
{
    let offset_x: i32 = if clip.x > 0x7fff_ffff {
        0x7fff_ffff
    } else {
        clip.x as i32
    };
    let offset_y: i32 = if clip.y > 0x7fff_ffff {
        0x7fff_ffff
    } else {
        clip.y as i32
    };
    let translation_x = command.constants.translation_x + offset_x;
    let translation_y = command.constants.translation_y + offset_y;
    let flags = if translation_x != 0 || translation_y != 0 {
        command.constants.flags | translate_flag
    } else {
        command.constants.flags
    };
    RenderStep::Draw {
        start: command.start,
        end: command.end,
        constants: DrawConstants {
            flags,
            scale: command.constants.scale,
            rotation: command.constants.rotation,
            opacity: command.constants.opacity,
            translation_x,
            translation_y,
        },
    }
}

/// Takes the steps of `command` from `s`.
fn render_command(
    s: RenderState,
    command: DrawCommand,
    clips: &Vec<UPxRect>,
    translate_flag: u32,
    steps: &mut Vec<RenderStep>,
) -> (r: RenderState)
    requires
        step_defined(s, command, clips@),
    ensures
        r == next_render_state(s, command, clips@),
        final(steps)@ == old(steps)@ + command_steps(s, command, clips@, translate_flag),
{
    let ghost before = steps@;
    let bound = bind_command(s, command, steps);
    let mut r = bound;
    let mut skip = false;
    if s.clip_index != command.clip_index {
        r.clip_index = command.clip_index;
        r.clip = clips[command.clip_index as usize];
        if r.clip.width == 0 && r.clip.height == 0 {
            skip = true;
        } else {
            steps.push(
                RenderStep::Scissor {
                    x: (r.clip.x + 2) / 4,
                    y: (r.clip.y + 2) / 4,
                    width: (r.clip.width + 2) / 4,
                    height: (r.clip.height + 2) / 4,
                },
            );
        }
    }
    if !skip {
        let step = draw_step(command, r.clip, translate_flag);
        steps.push(step);
    }
    proof {
        assert(final(steps)@ =~= before + command_steps(s, command, clips@, translate_flag));
    }
    r
}

/// Plans the steps of rendering `commands`, whose clips are numbered by
/// `clips`, from a render pass drawing within `current`.
/// `needs_texture_binding` says whether the pass still needs its default
/// bindings; `translate_flag` is the constant flag that marks a translation.
pub fn plan_render(
    commands: &Vec<DrawCommand>,
    clips: &Vec<UPxRect>,
    current: UPxRect,
    needs_texture_binding: bool,
    translate_flag: u32,
) -> (r: Vec<RenderStep>)
    requires
        render_defined(initial_render_state(current, needs_texture_binding), commands@, clips@),
    ensures
        r@ == planned_render_steps(
            initial_render_state(current, needs_texture_binding),
            commands@,
            clips@,
            translate_flag,
        ),
        forall|k: int|
            0 <= k < r@.len() && (#[trigger] r@[k]) is Draw ==> marks_translation(
                r@[k]->constants,
                translate_flag,
            ),
{
    let ghost init = initial_render_state(current, needs_texture_binding);
    let mut steps: Vec<RenderStep> = Vec::new();
    let mut state = RenderState { texture: None, needs_binding: needs_texture_binding, clip_index: 0, clip: current };
    let mut i: usize = 0;
    while i < commands.len()
        invariant
            i <= commands.len(),
            render_defined(init, commands@, clips@),
            state == planned_render_state(init, commands@.take(i as int), clips@),
            steps@ == planned_render_steps(init, commands@.take(i as int), clips@, translate_flag),
        decreases commands.len() - i,
    {
        proof {
            lemma_render_defined_prefix(init, commands@, clips@, i as int + 1);
            assert(commands@.take(i as int + 1).drop_last() =~= commands@.take(i as int));
            assert(commands@.take(i as int + 1).last() == commands@[i as int]);
        }
        state = render_command(state, commands[i], clips, translate_flag, &mut steps);
        i = i + 1;
    }
    proof {
        assert(commands@.take(commands.len() as int) =~= commands@);
        lemma_planned_draws_mark_translation(init, commands@, clips@, translate_flag);
    }
    steps
}

/// Whether `step` binds textures.
pub open spec fn is_bind(step: RenderStep) -> bool {
    step is BindTexture || step is BindDefault
}

/// The last bind step of `steps`, if any.
pub open spec fn last_bind(steps: Seq<RenderStep>) -> Option<RenderStep>
    decreases steps.len(),
{
    if steps.len() == 0 {
        None
    } else if is_bind(steps.last()) {
        Some(steps.last())
    } else {
        last_bind(steps.drop_last())
    }
}

/// Steps without a bind step leave the last bind step as it was.
proof fn lemma_last_bind_append(a: Seq<RenderStep>, b: Seq<RenderStep>)
    requires
        forall|k: int| 0 <= k < b.len() ==> !is_bind(#[trigger] b[k]),
    ensures
        last_bind(a + b) == last_bind(a),
    decreases b.len(),
{
    if b.len() == 0 {
        assert(a + b =~= a);
    } else {
        assert((a + b).drop_last() =~= a + b.drop_last());
        assert((a + b).last() == b.last());
        lemma_last_bind_append(a, b.drop_last());
    }
}

/// The texture that the planned state holds is the one that the last bind
/// step bound.
proof fn lemma_render_state_texture_bound(
    s: RenderState,
    commands: Seq<DrawCommand>,
    clips: Seq<UPxRect>,
    translate_flag: u32,
)
    requires
        s.texture is None,
    ensures
        planned_render_state(s, commands, clips).texture matches Some(t) ==> last_bind(
            planned_render_steps(s, commands, clips, translate_flag),
        ) == Some(RenderStep::BindTexture(t)),
    decreases commands.len(),
{
    if commands.len() > 0 {
        let rest = commands.drop_last();
        let c = commands.last();
        let prev = planned_render_state(s, rest, clips);
        let before = planned_render_steps(s, rest, clips, translate_flag);
        lemma_render_state_texture_bound(s, rest, clips, translate_flag);
        let binds = bind_steps(prev, c);
        let tail = command_steps(prev, c, clips, translate_flag).subrange(binds.len() as int, command_steps(prev, c, clips, translate_flag).len() as int);
        assert(command_steps(prev, c, clips, translate_flag) =~= binds + tail);
        assert forall|k: int| 0 <= k < tail.len() implies !is_bind(#[trigger] tail[k]) by {}
        assert(before + command_steps(prev, c, clips, translate_flag) =~= (before + binds) + tail);
        lemma_last_bind_append(before + binds, tail);
        if binds.len() == 0 {
            assert(before + binds =~= before);
        } else {
            assert((before + binds).last() == binds.last());
        }
    }
}

/// Every planned draw step carries `translate_flag` where its translation is
/// not zero.
proof fn lemma_planned_draws_mark_translation(
    s: RenderState,
    commands: Seq<DrawCommand>,
    clips: Seq<UPxRect>,
    translate_flag: u32,
)
    ensures
        ({
            let steps = planned_render_steps(s, commands, clips, translate_flag);
            forall|k: int|
                0 <= k < steps.len() && (#[trigger] steps[k]) is Draw ==> marks_translation(
                    steps[k]->constants,
                    translate_flag,
                )
        }),
    decreases commands.len(),
{
    if commands.len() > 0 {
        let rest = commands.drop_last();
        let c = commands.last();
        let prev = planned_render_state(s, rest, clips);
        let before = planned_render_steps(s, rest, clips, translate_flag);
        let added = command_steps(prev, c, clips, translate_flag);
        lemma_planned_draws_mark_translation(s, rest, clips, translate_flag);
        lemma_drawn_constants_mark_translation(prev, c, clips, translate_flag);
        assert forall|k: int| 0 <= k < added.len() && (#[trigger] added[k]) is Draw implies marks_translation(
            added[k]->constants,
            translate_flag,
        ) by {
            assert(added[k]->constants == drawn_constants(prev, c, clips, translate_flag));
        }
        let steps = before + added;
        assert forall|k: int| 0 <= k < steps.len() && (#[trigger] steps[k]) is Draw implies marks_translation(
            steps[k]->constants,
            translate_flag,
        ) by {
            if k >= before.len() {
                assert(steps[k] == added[k - before.len()]);
            }
        }
    }
}

/// The steps planned for the first commands begin the steps planned for all
/// of them.
pub proof fn lemma_render_steps_prefix(
    s: RenderState,
    commands: Seq<DrawCommand>,
    clips: Seq<UPxRect>,
    translate_flag: u32,
    n: int,
)
    requires
        0 <= n <= commands.len(),
    ensures
        planned_render_steps(s, commands.take(n), clips, translate_flag).is_prefix_of(
            planned_render_steps(s, commands, clips, translate_flag),
        ),
    decreases commands.len() - n,
{
    if n == commands.len() {
        assert(commands.take(n) =~= commands);
    } else {
        lemma_render_steps_prefix(s, commands, clips, translate_flag, n + 1);
        assert(commands.take(n + 1).drop_last() =~= commands.take(n));
    }
}

/// A command with a texture is drawn with that texture bound: once its steps
/// are taken, the last bind step binds its texture.
pub proof fn lemma_render_binds_texture(
    current: UPxRect,
    needs_texture_binding: bool,
    commands: Seq<DrawCommand>,
    clips: Seq<UPxRect>,
    translate_flag: u32,
    i: int,
)
    requires
        0 <= i < commands.len(),
        commands[i].texture is Some,
    ensures
        last_bind(
            planned_render_steps(
                initial_render_state(current, needs_texture_binding),
                commands.take(i + 1),
                clips,
                translate_flag,
            ),
        ) == Some(RenderStep::BindTexture(commands[i].texture->0)),
{
    let init = initial_render_state(current, needs_texture_binding);
    lemma_render_state_texture_bound(init, commands.take(i + 1), clips, translate_flag);
    assert(commands.take(i + 1).last() == commands[i]);
    assert(commands.take(i + 1).drop_last() =~= commands.take(i));
}

/// A rectangle in raw `Px` units, whose size may be negative.
#[derive(Clone, Copy, Debug, PartialEq, Eq, Structural)]
pub struct PxRect {
    pub x: i32,
    pub y: i32,
    pub width: i32,
    pub height: i32,
}

/// Whether the far corner of `r` can be represented.
pub open spec fn px_corner_fits(r: PxRect) -> bool {
    i32::MIN <= r.x + r.width <= i32::MAX && i32::MIN <= r.y + r.height <= i32::MAX
}

/// The smaller of two integers.
pub open spec fn lower(a: int, b: int) -> int {
    if a < b {
        a
    } else {
        b
    }
}

/// The larger of two integers.
pub open spec fn upper(a: int, b: int) -> int {
    if a < b {
        b
    } else {
        a
    }
}

/// The corners of the quad that copies `source`, a rectangle of a texture,
/// onto `dest` in `color`: top-left, top-right, bottom-left and bottom-right
/// of `dest`'s extents, each with the matching corner of `source`.
pub open spec fn blit_vertices(source: UPxRect, dest: PxRect, color: u32) -> Seq<DrawVertex> {
    let left = lower(dest.x as int, dest.x + dest.width) as i32;
    let right = upper(dest.x as int, dest.x + dest.width) as i32;
    let top = lower(dest.y as int, dest.y + dest.height) as i32;
    let bottom = upper(dest.y as int, dest.y + dest.height) as i32;
    let source_right = (source.x + source.width) as u32;
    let source_bottom = (source.y + source.height) as u32;
    seq![
        DrawVertex { x: left, y: top, texture_x: source.x, texture_y: source.y, color },
        DrawVertex { x: right, y: top, texture_x: source_right, texture_y: source.y, color },
        DrawVertex { x: left, y: bottom, texture_x: source.x, texture_y: source_bottom, color },
        DrawVertex { x: right, y: bottom, texture_x: source_right, texture_y: source_bottom, color },
    ]
}

/// The indices of the two triangles of a blit's quad.
pub open spec fn blit_indices() -> Seq<u32> {
    seq![1, 0, 2, 1, 2, 3]
}

/// A textured quad that copies a rectangle of a texture onto the screen.
#[derive(Clone, Copy, Debug)]
pub struct TextureBlit {
    vertices: [DrawVertex; 4],
}

impl TextureBlit {
    /// The corners of the quad: top-left, top-right, bottom-left and
    /// bottom-right.
    pub closed spec fn view(&self) -> Seq<DrawVertex> {
        self.vertices@
    }

    /// The quad that copies `source` onto `dest` in `color`, a linear color.
    pub fn new(source: UPxRect, dest: PxRect, color: u32) -> (r: Self)
        requires
            crate::clip::fits(source),
            px_corner_fits(dest),
        ensures
            r.view() == blit_vertices(source, dest, color),
    {
        let far_x = dest.x + dest.width;
        let far_y = dest.y + dest.height;
        let left = if far_x < dest.x {
            far_x
        } else {
            dest.x
        };
        let right = if far_x < dest.x {
            dest.x
        } else {
            far_x
        };
        let top = if far_y < dest.y {
            far_y
        } else {
            dest.y
        };
        let bottom = if far_y < dest.y {
            dest.y
        } else {
            far_y
        };
        let source_right = source.x + source.width;
        let source_bottom = source.y + source.height;
        let r = TextureBlit {
            vertices: [
                DrawVertex { x: left, y: top, texture_x: source.x, texture_y: source.y, color },
                DrawVertex { x: right, y: top, texture_x: source_right, texture_y: source.y, color },
                DrawVertex { x: left, y: bottom, texture_x: source.x, texture_y: source_bottom, color },
                DrawVertex {
                    x: right,
                    y: bottom,
                    texture_x: source_right,
                    texture_y: source_bottom,
                    color,
                },
            ],
        };
        assert(r.view() =~= blit_vertices(source, dest, color));
        r
    }

    /// The top-left corner.
    pub fn top_left(&self) -> (r: DrawVertex)
        ensures
            r == self.view()[0],
    {
        self.vertices[0]
    }

    /// The bottom-right corner.
    pub fn bottom_right(&self) -> (r: DrawVertex)
        ensures
            r == self.view()[3],
    {
        self.vertices[3]
    }

    /// Moves every corner by `(x, y)`.
    pub fn translate_by(&mut self, x: i32, y: i32)
        requires
            forall|k: int|
                0 <= k < 4 ==> i32::MIN <= #[trigger] old(self).view()[k].x + x <= i32::MAX
                    && i32::MIN <= old(self).view()[k].y + y <= i32::MAX,
        ensures
            final(self).view().len() == 4,
            forall|k: int|
                0 <= k < 4 ==> #[trigger] final(self).view()[k] == (DrawVertex {
                    x: (old(self).view()[k].x + x) as i32,
                    y: (old(self).view()[k].y + y) as i32,
                    ..old(self).view()[k]
                }),
    {
        let mut k: usize = 0;
        while k < 4
            invariant
                k <= 4,
                self.vertices@.len() == 4,
                forall|j: int|
                    0 <= j < 4 ==> i32::MIN <= #[trigger] old(self).view()[j].x + x <= i32::MAX
                        && i32::MIN <= old(self).view()[j].y + y <= i32::MAX,
                forall|j: int|
                    0 <= j < k ==> #[trigger] self.vertices@[j] == (DrawVertex {
                        x: (old(self).vertices@[j].x + x) as i32,
                        y: (old(self).vertices@[j].y + y) as i32,
                        ..old(self).vertices@[j]
                    }),
                forall|j: int| k <= j < 4 ==> #[trigger] self.vertices@[j] == old(self).vertices@[j],
            decreases 4 - k,
        {
            let vertex = self.vertices[k];
            proof {
                assert(vertex == old(self).view()[k as int]);
                assert(i32::MIN <= old(self).view()[k as int].x + x <= i32::MAX);
            }
            let moved = DrawVertex { x: vertex.x + x, y: vertex.y + y, ..vertex };
            self.vertices.set(k, moved);
            k = k + 1;
        }
    }

    /// The corners, in order.
    pub fn vertices(&self) -> (r: Vec<DrawVertex>)
        ensures
            r@ == self.view(),
    {
        let r = vec![self.vertices[0], self.vertices[1], self.vertices[2], self.vertices[3]];
        assert(r@ =~= self.view());
        r
    }

    /// The indices of the quad's two triangles.
    pub fn indices() -> (r: Vec<u32>)
        ensures
            r@ == blit_indices(),
    {
        let r = vec![1, 0, 2, 1, 2, 3];
        assert(r@ =~= blit_indices());
        r
    }
}

/// The flag values that mark what a draw call's shader does; their numbers
/// are the shaders' own.
#[derive(Clone, Copy, Debug)]
pub struct FlagBits {
    /// The shape is textured.
    pub textured: u32,
    /// The texture is a mask.
    pub masked: u32,
    /// The shape is scaled.
    pub scale: u32,
    /// The shape is rotated.
    pub rotate: u32,
    /// The shape is translated.
    pub translate: u32,
}

/// The flags of a draw call of a shape in a unit with `unit_flags`: marked
/// textured where it has a texture (and masked where that is a mask), scaled
/// where a scale is given, rotated where a rotation is given, and translated
/// where its translation is not zero.
pub open spec fn spec_draw_flags(
    unit_flags: u32,
    bits: FlagBits,
    texture_mask: Option<bool>,
    scaled: bool,
    rotated: bool,
    translation_x: i32,
    translation_y: i32,
) -> u32 {
    let textured = match texture_mask {
        Some(mask) => if mask {
            unit_flags | bits.textured | bits.masked
        } else {
            unit_flags | bits.textured
        },
        None => unit_flags,
    };
    let scaled_flags = if scaled {
        textured | bits.scale
    } else {
        textured
    };
    let rotated_flags = if rotated {
        scaled_flags | bits.rotate
    } else {
        scaled_flags
    };
    if translation_x != 0 || translation_y != 0 {
        rotated_flags | bits.translate
    } else {
        rotated_flags
    }
}

/// A set bit stays set when more bits are added.
proof fn lemma_or_keeps(a: u32, b: u32, m: u32)
    by (bit_vector)
    requires
        a & m == m,
    ensures
        (a | b) & m == m,
{
}

/// Added bits are set.
proof fn lemma_or_sets(a: u32, b: u32)
    by (bit_vector)
    ensures
        (a | b) & b == b,
        a | 0u32 == a,
        a & a == a,
{
}

/// Bits outside a mask stay outside it when bits outside it are added.
proof fn lemma_or_outside(a: u32, b: u32, m: u32)
    by (bit_vector)
    requires
        a & m == 0,
        b & m == 0,
    ensures
        (a | b) & m == 0,
{
}

/// The scale, rotate and translate steps keep every bit already set.
proof fn lemma_later_steps_keep(textured: u32, bits: FlagBits, scaled: bool, rotated: bool, translated: bool, m: u32)
    requires
        textured & m == m,
    ensures
        ({
            let scaled_flags = if scaled { textured | bits.scale } else { textured };
            let rotated_flags = if rotated { scaled_flags | bits.rotate } else { scaled_flags };
            (if translated { rotated_flags | bits.translate } else { rotated_flags }) & m == m
        }),
{
    lemma_or_keeps(textured, bits.scale, m);
    let scaled_flags = if scaled { textured | bits.scale } else { textured };
    lemma_or_keeps(scaled_flags, bits.rotate, m);
    let rotated_flags = if rotated { scaled_flags | bits.rotate } else { scaled_flags };
    lemma_or_keeps(rotated_flags, bits.translate, m);
}

/// What a draw call's flags mark: the unit's own flags stay set, and the
/// textured, masked, scale, rotate and translate bits are set wherever the
/// call is textured, masked, scaled, rotated or translated.
pub proof fn lemma_draw_flags_marks(
    unit_flags: u32,
    bits: FlagBits,
    texture_mask: Option<bool>,
    scaled: bool,
    rotated: bool,
    translation_x: i32,
    translation_y: i32,
)
    ensures
        ({
            let r = spec_draw_flags(unit_flags, bits, texture_mask, scaled, rotated, translation_x, translation_y);
            &&& r & unit_flags == unit_flags
            &&& texture_mask is Some ==> r & bits.textured == bits.textured
            &&& texture_mask == Some(true) ==> r & bits.masked == bits.masked
            &&& scaled ==> r & bits.scale == bits.scale
            &&& rotated ==> r & bits.rotate == bits.rotate
            &&& (translation_x != 0 || translation_y != 0) ==> r & bits.translate == bits.translate
        }),
{
    let u = unit_flags;
    let textured = match texture_mask {
        Some(mask) => if mask {
            u | bits.textured | bits.masked
        } else {
            u | bits.textured
        },
        None => u,
    };
    let scaled_flags = if scaled { textured | bits.scale } else { textured };
    let rotated_flags = if rotated { scaled_flags | bits.rotate } else { scaled_flags };
    let r = if translation_x != 0 || translation_y != 0 {
        rotated_flags | bits.translate
    } else {
        rotated_flags
    };
    assert(r == spec_draw_flags(u, bits, texture_mask, scaled, rotated, translation_x, translation_y));
    lemma_or_sets(u, u);
    lemma_or_keeps(u, bits.textured, u);
    lemma_or_keeps(u | bits.textured, bits.masked, u);
    lemma_or_sets(u, bits.textured);
    lemma_or_keeps(u | bits.textured, bits.masked, bits.textured);
    lemma_or_sets(u | bits.textured, bits.masked);
    // each later step keeps what the earlier ones set
    lemma_later_steps_keep(textured, bits, scaled, rotated, translation_x != 0 || translation_y != 0, u);
    if texture_mask is Some {
        lemma_later_steps_keep(textured, bits, scaled, rotated, translation_x != 0 || translation_y != 0, bits.textured);
    }
    if texture_mask == Some(true) {
        lemma_later_steps_keep(textured, bits, scaled, rotated, translation_x != 0 || translation_y != 0, bits.masked);
    }
    if scaled {
        lemma_or_sets(textured, bits.scale);
        lemma_or_keeps(scaled_flags, bits.rotate, bits.scale);
        lemma_or_keeps(rotated_flags, bits.translate, bits.scale);
    }
    if rotated {
        lemma_or_sets(scaled_flags, bits.rotate);
        lemma_or_keeps(rotated_flags, bits.translate, bits.rotate);
    }
    lemma_or_sets(rotated_flags, bits.translate);
}

/// Translation adds the translate bit and nothing else: the flags of a
/// translated call are those of the same call untranslated with
/// `bits.translate` added, and an untranslated call whose other bits all
/// lie outside `bits.translate` does not carry it.
pub proof fn lemma_draw_flags_translation(
    unit_flags: u32,
    bits: FlagBits,
    texture_mask: Option<bool>,
    scaled: bool,
    rotated: bool,
    translation_x: i32,
    translation_y: i32,
)
    ensures
        spec_draw_flags(unit_flags, bits, texture_mask, scaled, rotated, translation_x, translation_y)
            == spec_draw_flags(unit_flags, bits, texture_mask, scaled, rotated, 0, 0) | (if translation_x
            != 0 || translation_y != 0 {
            bits.translate
        } else {
            0u32
        }),
        ({
            let t = bits.translate;
            (unit_flags & t == 0 && bits.textured & t == 0 && bits.masked & t == 0 && bits.scale & t == 0
                && bits.rotate & t == 0) ==> spec_draw_flags(
                unit_flags,
                bits,
                texture_mask,
                scaled,
                rotated,
                0,
                0,
            ) & t == 0
        }),
{
    let base = spec_draw_flags(unit_flags, bits, texture_mask, scaled, rotated, 0, 0);
    lemma_or_sets(base, base);
    let t = bits.translate;
    if unit_flags & t == 0 && bits.textured & t == 0 && bits.masked & t == 0 && bits.scale & t == 0
        && bits.rotate & t == 0 {
        let u = unit_flags;
        lemma_or_outside(u, bits.textured, t);
        lemma_or_outside(u | bits.textured, bits.masked, t);
        let textured = match texture_mask {
            Some(mask) => if mask {
                u | bits.textured | bits.masked
            } else {
                u | bits.textured
            },
            None => u,
        };
        lemma_or_outside(textured, bits.scale, t);
        let scaled_flags = if scaled { textured | bits.scale } else { textured };
        lemma_or_outside(scaled_flags, bits.rotate, t);
    }
}

/// The flags of a draw call: `texture_mask` says whether the call has a
/// texture and whether that is a mask, which must agree with whether the
/// shape is a textured one.
pub fn draw_flags(
    unit_flags: u32,
    bits: FlagBits,
    textured_shape: bool,
    texture_mask: Option<bool>,
    scaled: bool,
    rotated: bool,
    translation_x: i32,
    translation_y: i32,
) -> (r: u32)
    requires
        textured_shape == texture_mask is Some,
    ensures
        r == spec_draw_flags(unit_flags, bits, texture_mask, scaled, rotated, translation_x, translation_y),
        r & unit_flags == unit_flags,
        texture_mask is Some ==> r & bits.textured == bits.textured,
        texture_mask == Some(true) ==> r & bits.masked == bits.masked,
        scaled ==> r & bits.scale == bits.scale,
        rotated ==> r & bits.rotate == bits.rotate,
        (translation_x != 0 || translation_y != 0) ==> r & bits.translate == bits.translate,
{
    proof {
        lemma_draw_flags_marks(unit_flags, bits, texture_mask, scaled, rotated, translation_x, translation_y);
    }
    let mut flags = unit_flags;
    match texture_mask {
        Some(mask) => {
            flags = flags | bits.textured;
            if mask {
                flags = flags | bits.masked;
            }
        },
        None => {},
    }
    if scaled {
        flags = flags | bits.scale;
    }
    if rotated {
        flags = flags | bits.rotate;
    }
    if translation_x != 0 || translation_y != 0 {
        flags = flags | bits.translate;
    }
    flags
}

} // verus!

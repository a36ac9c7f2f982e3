//! Clipping rectangles in `figures`' unsigned pixel unit, and the stack that
//! nests them while a frame is drawn.
//!
//! A `UPx` value is held here by its raw representation, the unscaled `u32`
//! that `figures` stores: four raw units make one pixel.

use figures::units::UPx;
use figures::{Point, Rect, Size, UnscaledUnit};
use vstd::prelude::*;

verus! {

/// A rectangle in `UPx`: its top-left corner and its size, each by raw value.
#[derive(Clone, Copy, Debug, PartialEq, Eq, Structural)]
pub struct UPxRect {
    /// The horizontal coordinate of the top-left corner.
    pub x: u32,
    /// The vertical coordinate of the top-left corner.
    pub y: u32,
    /// The width.
    pub width: u32,
    /// The height.
    pub height: u32,
}

/// A size in `UPx`, by raw values.
#[derive(Clone, Copy, Debug, PartialEq, Eq, Structural)]
pub struct UPxSize {
    /// The width.
    pub width: u32,
    /// The height.
    pub height: u32,
}

/// The rectangle with no area at the origin.
pub open spec fn empty_rect() -> UPxRect {
    UPxRect { x: 0, y: 0, width: 0, height: 0 }
}

/// The horizontal coordinate just past the right edge.
pub open spec fn right(r: UPxRect) -> int {
    r.x + r.width
}

/// The vertical coordinate just past the bottom edge.
pub open spec fn bottom(r: UPxRect) -> int {
    r.y + r.height
}

/// Whether the far corner of `r` can be represented.
pub open spec fn fits(r: UPxRect) -> bool {
    right(r) <= u32::MAX && bottom(r) <= u32::MAX
}

/// Whether the point `(px, py)` lies within `r`: the left and top edges are
/// included, the right and bottom edges are not.
pub open spec fn covers(r: UPxRect, px: int, py: int) -> bool {
    r.x <= px < right(r) && r.y <= py < bottom(r)
}

/// The larger of two integers.
pub open spec fn larger(a: int, b: int) -> int {
    if a < b {
        b
    } else {
        a
    }
}

/// The smaller of two integers.
pub open spec fn smaller(a: int, b: int) -> int {
    if a < b {
        a
    } else {
        b
    }
}

/// The overlap of `a` and `b` where it has an area, and nothing where the two
/// are apart or only share an edge.
pub open spec fn intersection(a: UPxRect, b: UPxRect) -> Option<UPxRect> {
    let x1 = larger(a.x as int, b.x as int);
    let x2 = smaller(right(a), right(b));
    let y1 = larger(a.y as int, b.y as int);
    let y2 = smaller(bottom(a), bottom(b));
    if x2 > x1 && y2 > y1 {
        Some(UPxRect { x: x1 as u32, y: y1 as u32, width: (x2 - x1) as u32, height: (y2 - y1) as u32 })
    } else {
        None
    }
}

/// `v` rounded down to a whole pixel.
pub open spec fn floor_pixel(v: int) -> int {
    v / 4 * 4
}

/// `v` rounded up to a whole pixel.
pub open spec fn ceil_pixel(v: int) -> int {
    (v + 3) / 4 * 4
}

/// Whether rounding the far corner of `r` up to a whole pixel can be
/// represented.
pub open spec fn expandable(r: UPxRect) -> bool {
    right(r) + 3 <= u32::MAX && bottom(r) + 3 <= u32::MAX
}

/// `r` grown to whole pixels: its top-left corner rounded down and its far
/// corner rounded up.
pub open spec fn expand_rounded(r: UPxRect) -> UPxRect {
    UPxRect {
        x: floor_pixel(r.x as int) as u32,
        y: floor_pixel(r.y as int) as u32,
        width: (ceil_pixel(right(r)) - floor_pixel(r.x as int)) as u32,
        height: (ceil_pixel(bottom(r)) - floor_pixel(r.y as int)) as u32,
    }
}

/// `r` moved by the top-left corner of `by`.
pub open spec fn offset_by(r: UPxRect, by: UPxRect) -> UPxRect {
    UPxRect { x: (r.x + by.x) as u32, y: (r.y + by.y) as u32, width: r.width, height: r.height }
}

/// Calls `figures::Rect::<UPx>::intersection`. Its source takes each
/// rectangle's extents (the origin, and the origin plus the size, added
/// without overflow checks beyond Rust's own), keeps the larger near
/// coordinates and the smaller far ones, and returns the rectangle between
/// them when it is wider and taller than nothing, and `None` otherwise.
#[verifier::external_body]
fn figures_intersection(a: UPxRect, b: UPxRect) -> (r: Option<UPxRect>)
    requires
        fits(a),
        fits(b),
    ensures
        r == intersection(a, b),
{
    let rect = |r: UPxRect| Rect::new(
        Point::new(UPx::from_unscaled(r.x), UPx::from_unscaled(r.y)),
        Size::new(UPx::from_unscaled(r.width), UPx::from_unscaled(r.height)),
    );
    rect(a).intersection(&rect(b)).map(|r| UPxRect {
        x: r.origin.x.into_unscaled(),
        y: r.origin.y.into_unscaled(),
        width: r.size.width.into_unscaled(),
        height: r.size.height.into_unscaled(),
    })
}

/// Calls `figures::Rect::<UPx>::expand_rounded`. Its source rounds the
/// top-left extent down and the bottom-right extent up, each coordinate to a
/// multiple of four raw units (`v / 4 * 4` and `(v + 3) / 4 * 4`), and
/// rebuilds the rectangle from the two corners.
#[verifier::external_body]
fn figures_expand_rounded(r: UPxRect) -> (e: UPxRect)
    requires
        expandable(r),
    ensures
        e == expand_rounded(r),
{
    let e = Rect::new(
        Point::new(UPx::from_unscaled(r.x), UPx::from_unscaled(r.y)),
        Size::new(UPx::from_unscaled(r.width), UPx::from_unscaled(r.height)),
    ).expand_rounded();
    UPxRect {
        x: e.origin.x.into_unscaled(),
        y: e.origin.y.into_unscaled(),
        width: e.size.width.into_unscaled(),
        height: e.size.height.into_unscaled(),
    }
}

/// The clip that results from clipping `new`, given relative to the top-left
/// corner of `current`, to `current`: their overlap, or the empty rectangle
/// where they do not overlap.
pub open spec fn clipped(current: UPxRect, new: UPxRect) -> UPxRect {
    clipped_or_empty(intersection(current, offset_by(new, current)))
}

/// Whether [`ClipRect::clip_to`] can clip `new` to `current` without an
/// overflow.
pub open spec fn can_clip(current: UPxRect, new: UPxRect) -> bool {
    &&& fits(current)
    &&& new.x + current.x <= u32::MAX
    &&& new.y + current.y <= u32::MAX
    &&& fits(offset_by(new, current))
}

/// The area that drawing is currently clipped to.
#[derive(Clone, Copy, Debug, PartialEq, Eq, Structural)]
pub struct ClipRect(pub UPxRect);

impl ClipRect {
    /// The clip that covers a surface of `size` from its top-left corner.
    pub fn from_size(size: UPxSize) -> (r: Self)
        ensures
            r.0 == (UPxRect { x: 0, y: 0, width: size.width, height: size.height }),
    {
        ClipRect(UPxRect { x: 0, y: 0, width: size.width, height: size.height })
    }

    /// Clips `new`, which is relative to this clip's top-left corner, to this
    /// clip.
    pub fn clip_to(&self, new: UPxRect) -> (r: Self)
        requires
            can_clip(self.0, new),
        ensures
            r.0 == clipped(self.0, new),
    {
        let moved = UPxRect { x: new.x + self.0.x, y: new.y + self.0.y, width: new.width, height: new.height };
        match figures_intersection(self.0, moved) {
            Some(r) => ClipRect(r),
            None => ClipRect(UPxRect { x: 0, y: 0, width: 0, height: 0 }),
        }
    }
}

/// The abstract state of a [`ClipStack`]: the clip drawing is confined to,
/// and the clips it was pushed over, the most recent last.
pub struct ClipStackView {
    pub current: UPxRect,
    pub previous: Seq<UPxRect>,
}

/// The state after pushing `clip` onto `v`: `clip`, rounded out to whole
/// pixels and taken relative to the current clip, clipped to the current clip,
/// which is remembered.
pub open spec fn pushed(v: ClipStackView, clip: UPxRect) -> ClipStackView {
    ClipStackView { current: clipped(v.current, expand_rounded(clip)), previous: v.previous.push(v.current) }
}

/// The state after popping from `v`: the most recently remembered clip is
/// current again.
pub open spec fn popped(v: ClipStackView) -> ClipStackView {
    ClipStackView { current: v.previous.last(), previous: v.previous.drop_last() }
}

/// Whether `clip` can be pushed onto `v` without an overflow: it can be
/// rounded out to whole pixels, and moved by the current clip's top-left
/// corner with its far corner still represented.
pub open spec fn can_push(v: ClipStackView, clip: UPxRect) -> bool {
    let expanded = expand_rounded(clip);
    &&& expandable(clip)
    &&& expanded.x + v.current.x <= u32::MAX
    &&& expanded.y + v.current.y <= u32::MAX
    &&& fits(offset_by(expanded, v.current))
}

/// The clips of nested drawing regions.
#[derive(Debug)]
pub struct ClipStack {
    current: ClipRect,
    previous_clips: Vec<ClipRect>,
}

impl ClipStack {
    /// The abstract state.
    pub closed spec fn view(&self) -> ClipStackView {
        ClipStackView {
            current: self.current.0,
            previous: Seq::new(self.previous_clips@.len(), |i: int| self.previous_clips@[i].0),
        }
    }

    /// Every clip on the stack has a far corner that can be represented.
    #[verifier::type_invariant]
    spec fn clips_fit(&self) -> bool {
        &&& fits(self.current.0)
        &&& forall|i: int| 0 <= i < self.previous_clips@.len() ==> fits(#[trigger] self.previous_clips@[i].0)
    }

    /// The stack of a surface of `size`: its only clip covers the surface.
    pub fn new(size: UPxSize) -> (r: Self)
        ensures
            r.view().current == (UPxRect { x: 0, y: 0, width: size.width, height: size.height }),
            r.view().previous.len() == 0,
            fits(r.view().current),
    {
        let r = ClipStack { current: ClipRect::from_size(size), previous_clips: Vec::new() };
        assert(r.view().previous =~= Seq::<UPxRect>::empty());
        r
    }

    /// The clip drawing is confined to.
    pub fn current(&self) -> (r: ClipRect)
        ensures
            r.0 == self.view().current,
    {
        self.current
    }

    /// Confines drawing to `clip`, relative to the current clip and within
    /// it, remembering the current clip.
    pub fn push_clip(&mut self, clip: UPxRect)
        requires
            can_push(old(self).view(), clip),
        ensures
            final(self).view() == pushed(old(self).view(), clip),
            fits(final(self).view().current),
    {
        proof {
            use_type_invariant(&*self);
        }
        let previous_clip = self.current;
        let expanded = figures_expand_rounded(clip);
        let next = previous_clip.clip_to(expanded);
        proof {
            lemma_intersection_fits(previous_clip.0, offset_by(expanded, previous_clip.0));
        }
        let mut previous_clips = Vec::new();
        std::mem::swap(&mut previous_clips, &mut self.previous_clips);
        previous_clips.push(previous_clip);
        self.current = next;
        self.previous_clips = previous_clips;
        assert(self.view().previous =~= old(self).view().previous.push(old(self).view().current));
    }

    /// Makes the most recently remembered clip current again.
    pub fn pop_clip(&mut self)
        requires
            old(self).view().previous.len() > 0,
        ensures
            final(self).view() == popped(old(self).view()),
            fits(final(self).view().current),
    {
        proof {
            use_type_invariant(&*self);
        }
        let mut previous_clips = Vec::new();
        std::mem::swap(&mut previous_clips, &mut self.previous_clips);
        let last = previous_clips.pop();
        self.previous_clips = previous_clips;
        match last {
            Some(clip) => {
                self.current = clip;
            },
            None => {},
        }
        assert(self.view().previous =~= old(self).view().previous.drop_last());
    }
}

/// The overlap of two rectangles lies within each of them.
pub proof fn lemma_intersection_fits(a: UPxRect, b: UPxRect)
    requires
        fits(a),
        fits(b),
    ensures
        fits(clipped_or_empty(intersection(a, b))),
        forall|px: int, py: int| covers(clipped_or_empty(intersection(a, b)), px, py) ==> covers(a, px, py) && covers(b, px, py),
{
}

/// The rectangle held by `r`, or the empty rectangle.
pub open spec fn clipped_or_empty(r: Option<UPxRect>) -> UPxRect {
    match r {
        Some(r) => r,
        None => empty_rect(),
    }
}

/// Popping right after a push restores the stack as it was.
pub proof fn lemma_push_then_pop_restores(v: ClipStackView, clip: UPxRect)
    ensures
        popped(pushed(v, clip)) == v,
{
    assert(popped(pushed(v, clip)).previous =~= v.previous);
}

/// A pushed clip cannot extend the current clip: every point it covers, the
/// clip it was pushed over covers too.
pub proof fn lemma_push_stays_within(v: ClipStackView, clip: UPxRect, px: int, py: int)
    requires
        fits(v.current),
        can_push(v, clip),
        covers(pushed(v, clip).current, px, py),
    ensures
        covers(v.current, px, py),
{
    lemma_intersection_fits(v.current, offset_by(expand_rounded(clip), v.current));
}

} // verus!

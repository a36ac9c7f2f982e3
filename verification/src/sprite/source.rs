//! Where a sprite's pixels come from in its texture: one rectangle, or
//! several rectangles joined into one image.

use euclid::default::{Point2D, Rect, Size2D};
use vstd::prelude::*;

verus! {

/// A rectangle of whole texture pixels: its top-left corner and its size.
#[derive(Clone, Copy, Debug, Default, PartialEq, Eq, Structural)]
pub struct PixelRect {
    pub x: u32,
    pub y: u32,
    pub width: u32,
    pub height: u32,
}

/// A size in whole texture pixels.
#[derive(Clone, Copy, Debug, Default, PartialEq, Eq, Structural)]
pub struct PixelSize {
    pub width: u32,
    pub height: u32,
}

/// Whether the far corner of `r` can be represented.
pub open spec fn corner_fits(r: PixelRect) -> bool {
    r.x + r.width <= u32::MAX && r.y + r.height <= u32::MAX
}

/// Whether `r` covers no pixel: it has no width or no height.
pub open spec fn is_empty(r: PixelRect) -> bool {
    r.width == 0 || r.height == 0
}

/// Whether `inner` lies within `outer`.
pub open spec fn within(inner: PixelRect, outer: PixelRect) -> bool {
    &&& outer.x <= inner.x
    &&& outer.y <= inner.y
    &&& inner.x + inner.width <= outer.x + outer.width
    &&& inner.y + inner.height <= outer.y + outer.height
}

/// The smaller of two integers.
pub open spec fn least(a: int, b: int) -> int {
    if a < b {
        a
    } else {
        b
    }
}

/// The larger of two integers.
pub open spec fn greatest(a: int, b: int) -> int {
    if a < b {
        b
    } else {
        a
    }
}

/// The smallest rectangle that holds both `a` and `b`, where neither is
/// empty; otherwise the one that is not empty, or `a`.
pub open spec fn union(a: PixelRect, b: PixelRect) -> PixelRect {
    if is_empty(b) {
        a
    } else if is_empty(a) {
        b
    } else {
        let x = least(a.x as int, b.x as int);
        let y = least(a.y as int, b.y as int);
        PixelRect {
            x: x as u32,
            y: y as u32,
            width: (greatest(a.x + a.width, b.x + b.width) - x) as u32,
            height: (greatest(a.y + a.height, b.y + b.height) - y) as u32,
        }
    }
}

/// Calls `euclid::Rect::<u32>::union`. Its source turns both rectangles into
/// boxes (origin, and origin plus size), returns the first where the second
/// box is empty and the second where the first is empty (a box is empty
/// unless its far corner lies past its near corner on both axes), and
/// otherwise the box from the lesser near coordinates to the greater far
/// ones, turned back into a rectangle.
#[verifier::external_body]
fn euclid_union(a: PixelRect, b: PixelRect) -> (r: PixelRect)
    requires
        corner_fits(a),
        corner_fits(b),
    ensures
        r == union(a, b),
{
    let rect = |r: PixelRect| Rect::new(Point2D::new(r.x, r.y), Size2D::new(r.width, r.height));
    let r = rect(a).union(&rect(b));
    PixelRect { x: r.origin.x, y: r.origin.y, width: r.size.width, height: r.size.height }
}

/// A rectangle of a texture, drawn at `destination` within a joined image.
#[derive(Clone, Copy, Debug, PartialEq, Eq, Structural)]
pub struct SpriteSourceSublocation {
    pub source: PixelRect,
    pub destination_x: u32,
    pub destination_y: u32,
}

/// Where a sprite comes from in its texture.
#[derive(Clone, Debug)]
pub enum SpriteSourceLocation {
    /// One rectangle.
    Rect(PixelRect),
    /// Rectangles joined into one image.
    Joined(Vec<SpriteSourceSublocation>),
}

/// The area that `location` covers within its joined image.
pub open spec fn destination_of(location: SpriteSourceSublocation) -> PixelRect {
    PixelRect {
        x: location.destination_x,
        y: location.destination_y,
        width: location.source.width,
        height: location.source.height,
    }
}

/// The union of the destinations of `locations`, in order; nothing where
/// there are none.
pub open spec fn joined_bounds(locations: Seq<SpriteSourceSublocation>) -> Option<PixelRect>
    decreases locations.len(),
{
    if locations.len() == 0 {
        None
    } else {
        match joined_bounds(locations.drop_last()) {
            None => Some(destination_of(locations.last())),
            Some(total) => Some(union(total, destination_of(locations.last()))),
        }
    }
}

/// The area that a location covers: its rectangle, or the union of the
/// destinations of its parts, which is the empty rectangle at the origin
/// where there are none.
pub open spec fn location_bounds(location: SpriteSourceLocation) -> PixelRect {
    match location {
        SpriteSourceLocation::Rect(r) => r,
        SpriteSourceLocation::Joined(parts) => match joined_bounds(parts@) {
            Some(r) => r,
            None => PixelRect { x: 0, y: 0, width: 0, height: 0 },
        },
    }
}

/// Whether the bounds of `location` can be computed: every destination has
/// a far corner that can be represented.
pub open spec fn bounds_defined(location: SpriteSourceLocation) -> bool {
    match location {
        SpriteSourceLocation::Rect(_) => true,
        SpriteSourceLocation::Joined(parts) => forall|i: int|
            0 <= i < parts@.len() ==> corner_fits(#[trigger] destination_of(parts@[i])),
    }
}

impl SpriteSourceSublocation {
    /// The area this part covers within its joined image.
    pub fn destination_rect(&self) -> (r: PixelRect)
        ensures
            r == destination_of(*self),
    {
        PixelRect {
            x: self.destination_x,
            y: self.destination_y,
            width: self.source.width,
            height: self.source.height,
        }
    }
}

/// The union of two rectangles whose far corners can be represented has a
/// far corner that can be represented.
proof fn lemma_union_fits(a: PixelRect, b: PixelRect)
    requires
        corner_fits(a),
        corner_fits(b),
    ensures
        corner_fits(union(a, b)),
{
}

/// The joined bounds of parts whose destinations fit, fit.
proof fn lemma_joined_bounds_fit(locations: Seq<SpriteSourceSublocation>)
    requires
        forall|i: int| 0 <= i < locations.len() ==> corner_fits(#[trigger] destination_of(locations[i])),
    ensures
        joined_bounds(locations) matches Some(r) ==> corner_fits(r),
    decreases locations.len(),
{
    if locations.len() > 0 {
        let rest = locations.drop_last();
        assert forall|i: int| 0 <= i < rest.len() implies corner_fits(#[trigger] destination_of(rest[i])) by {
            assert(rest[i] == locations[i]);
        }
        lemma_joined_bounds_fit(rest);
        assert(corner_fits(destination_of(locations[locations.len() - 1])));
        if let Some(total) = joined_bounds(rest) {
            lemma_union_fits(total, destination_of(locations.last()));
        }
    }
}

impl SpriteSourceLocation {
    /// The area this location covers.
    pub fn bounds(&self) -> (r: PixelRect)
        requires
            bounds_defined(*self),
        ensures
            r == location_bounds(*self),
    {
        match self {
            SpriteSourceLocation::Rect(rect) => *rect,
            SpriteSourceLocation::Joined(locations) => {
                let mut total: Option<PixelRect> = None;
                let mut i: usize = 0;
                while i < locations.len()
                    invariant
                        i <= locations.len(),
                        forall|j: int|
                            0 <= j < locations@.len() ==> corner_fits(
                                #[trigger] destination_of(locations@[j]),
                            ),
                        total == joined_bounds(locations@.take(i as int)),
                    decreases locations.len() - i,
                {
                    proof {
                        assert(locations@.take(i as int + 1).drop_last() =~= locations@.take(i as int));
                        assert forall|j: int| 0 <= j < locations@.take(i as int).len() implies corner_fits(
                            #[trigger] destination_of(locations@.take(i as int)[j]),
                        ) by {
                            assert(locations@.take(i as int)[j] == locations@[j]);
                        }
                        lemma_joined_bounds_fit(locations@.take(i as int));
                        assert(corner_fits(destination_of(locations@[i as int])));
                    }
                    let destination = locations[i].destination_rect();
                    total = match total {
                        None => Some(destination),
                        Some(previous) => Some(euclid_union(previous, destination)),
                    };
                    i = i + 1;
                }
                proof {
                    assert(locations@.take(locations.len() as int) =~= locations@);
                }
                match total {
                    Some(r) => r,
                    None => PixelRect { x: 0, y: 0, width: 0, height: 0 },
                }
            },
        }
    }

    /// The size of the area this location covers.
    pub fn size(&self) -> (r: PixelSize)
        requires
            bounds_defined(*self),
        ensures
            r.width == location_bounds(*self).width,
            r.height == location_bounds(*self).height,
    {
        let bounds = self.bounds();
        PixelSize { width: bounds.width, height: bounds.height }
    }
}

/// The union of two rectangles holds each of them that is not empty.
pub proof fn lemma_union_holds_both(a: PixelRect, b: PixelRect)
    requires
        corner_fits(a),
        corner_fits(b),
    ensures
        !is_empty(a) ==> within(a, union(a, b)),
        !is_empty(b) ==> within(b, union(a, b)),
{
}

/// The bounds of a joined location hold every part's destination that is not
/// empty.
pub proof fn lemma_joined_bounds_hold_parts(locations: Seq<SpriteSourceSublocation>, i: int)
    requires
        0 <= i < locations.len(),
        !is_empty(destination_of(locations[i])),
        forall|j: int| 0 <= j < locations.len() ==> corner_fits(#[trigger] destination_of(locations[j])),
    ensures
        joined_bounds(locations) matches Some(r) && within(destination_of(locations[i]), r),
    decreases locations.len(),
{
    let rest = locations.drop_last();
    let last = destination_of(locations.last());
    assert forall|j: int| 0 <= j < rest.len() implies corner_fits(#[trigger] destination_of(rest[j])) by {
        assert(rest[j] == locations[j]);
    }
    assert(corner_fits(destination_of(locations[locations.len() - 1])));
    lemma_joined_bounds_fit(rest);
    if i == locations.len() - 1 {
        if let Some(total) = joined_bounds(rest) {
            lemma_union_holds_both(total, last);
        }
    } else {
        assert(rest[i] == locations[i]);
        lemma_joined_bounds_hold_parts(rest, i);
        let total = joined_bounds(rest)->0;
        lemma_union_holds_both(total, last);
        if is_empty(total) {
            assert(false);
        }
    }
}

} // verus!

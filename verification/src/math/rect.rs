//! Rectangles described by their minimum corner and their extent, with
//! inclusive bounds.

use vstd::prelude::*;

use crate::math::{scalar_max, scalar_min, spec_max, spec_min, Point, Scalar, Size};

verus! {

/// A rectangle covering `origin` up to and including `origin + size`.
#[derive(Clone, Copy, Debug, Default, PartialEq, Eq, Hash)]
pub struct Rect<S> {
    /// The minimum corner.
    pub origin: Point<S>,
    /// The extent from the minimum corner to the maximum corner.
    pub size: Size<S>,
}

/// Whether `a + b` can be represented in `S`.
pub open spec fn sum_fits<S: Scalar>(a: S, b: S) -> bool {
    S::lowest() <= a.value() + b.value() <= S::highest()
}

/// Whether `a - b` can be represented in `S`.
pub open spec fn difference_fits<S: Scalar>(a: S, b: S) -> bool {
    S::lowest() <= a.value() - b.value() <= S::highest()
}

impl<S: Scalar> Rect<S> {
    /// The horizontal coordinate of the minimum corner.
    pub open spec fn left(self) -> int {
        self.origin.x.value()
    }

    /// The vertical coordinate of the minimum corner.
    pub open spec fn top(self) -> int {
        self.origin.y.value()
    }

    /// The horizontal coordinate of the maximum corner.
    pub open spec fn right(self) -> int {
        self.origin.x.value() + self.size.width.value()
    }

    /// The vertical coordinate of the maximum corner.
    pub open spec fn bottom(self) -> int {
        self.origin.y.value() + self.size.height.value()
    }

    /// Whether the maximum corner can be represented.
    pub open spec fn corner_fits(self) -> bool {
        sum_fits(self.origin.x, self.size.width) && sum_fits(self.origin.y, self.size.height)
    }

    /// Whether `point` lies within the rectangle, its edges included.
    pub open spec fn spec_contains(self, point: Point<S>) -> bool {
        self.left() <= point.x.value() <= self.right() && self.top() <= point.y.value() <= self.bottom()
    }

    /// Whether [`Rect::contains`] can compute its answer for `point`: each
    /// far coordinate it computes can be represented.
    pub open spec fn contains_defined(self, point: Point<S>) -> bool {
        self.left() <= point.x.value() ==> {
            &&& sum_fits(self.origin.x, self.size.width)
            &&& (self.right() >= point.x.value() && self.top() <= point.y.value()) ==> sum_fits(
                self.origin.y,
                self.size.height,
            )
        }
    }

    /// Whether the two rectangles are separated by a gap on some side.
    pub open spec fn spec_apart(self, other: Self) -> bool {
        ||| self.right() < other.left()
        ||| other.right() < self.left()
        ||| self.bottom() < other.top()
        ||| other.bottom() < self.top()
    }

    /// Whether [`Rect::intersects_with`] can compute its answer: each far
    /// coordinate it computes can be represented.
    pub open spec fn intersects_defined(self, other: Self) -> bool {
        &&& sum_fits(self.origin.x, self.size.width)
        &&& self.right() >= other.left() ==> {
            &&& sum_fits(other.origin.x, other.size.width)
            &&& other.right() >= self.left() ==> {
                &&& sum_fits(self.origin.y, self.size.height)
                &&& self.bottom() >= other.top() ==> sum_fits(other.origin.y, other.size.height)
            }
        }
    }

    /// A rectangle at `origin` extending by `size`.
    pub fn sized(origin: Point<S>, size: Size<S>) -> (r: Self)
        ensures
            r.origin == origin,
            r.size == size,
    {
        Rect { origin, size }
    }

    /// The rectangle from the minimum corner `min` to the maximum corner `max`.
    pub fn new(min: Point<S>, max: Point<S>) -> (r: Self)
        requires
            difference_fits(max.x, min.x),
            difference_fits(max.y, min.y),
        ensures
            r.origin == min,
            r.size.width.value() == max.x.value() - min.x.value(),
            r.size.height.value() == max.y.value() - min.y.value(),
    {
        Rect { origin: min, size: Size { width: max.x.minus(min.x), height: max.y.minus(min.y) } }
    }

    /// The horizontal coordinate of the minimum corner.
    pub fn x1(&self) -> (r: S)
        ensures
            r == self.origin.x,
    {
        self.origin.x
    }

    /// The vertical coordinate of the minimum corner.
    pub fn y1(&self) -> (r: S)
        ensures
            r == self.origin.y,
    {
        self.origin.y
    }

    /// The minimum corner.
    pub fn coord1(&self) -> (r: Point<S>)
        ensures
            r == self.origin,
    {
        self.origin
    }

    /// The horizontal coordinate of the maximum corner.
    pub fn x2(&self) -> (r: S)
        requires
            sum_fits(self.origin.x, self.size.width),
        ensures
            r.value() == self.right(),
    {
        self.origin.x.plus(self.size.width)
    }

    /// The vertical coordinate of the maximum corner.
    pub fn y2(&self) -> (r: S)
        requires
            sum_fits(self.origin.y, self.size.height),
        ensures
            r.value() == self.bottom(),
    {
        self.origin.y.plus(self.size.height)
    }

    /// The maximum corner.
    pub fn coord2(&self) -> (r: Point<S>)
        requires
            self.corner_fits(),
        ensures
            r.x.value() == self.right(),
            r.y.value() == self.bottom(),
    {
        Point::new(self.x2(), self.y2())
    }

    /// The corner at the minimum of both coordinates.
    pub fn x1y1(&self) -> (r: Point<S>)
        ensures
            r.x == self.origin.x,
            r.y == self.origin.y,
    {
        Point::new(self.x1(), self.y1())
    }

    /// The corner at the minimum horizontal and maximum vertical coordinate.
    pub fn x1y2(&self) -> (r: Point<S>)
        requires
            sum_fits(self.origin.y, self.size.height),
        ensures
            r.x == self.origin.x,
            r.y.value() == self.bottom(),
    {
        Point::new(self.x1(), self.y2())
    }

    /// The corner at the maximum horizontal and minimum vertical coordinate.
    pub fn x2y1(&self) -> (r: Point<S>)
        requires
            sum_fits(self.origin.x, self.size.width),
        ensures
            r.x.value() == self.right(),
            r.y == self.origin.y,
    {
        Point::new(self.x2(), self.y1())
    }

    /// The corner at the maximum of both coordinates.
    pub fn x2y2(&self) -> (r: Point<S>)
        requires
            self.corner_fits(),
        ensures
            r.x.value() == self.right(),
            r.y.value() == self.bottom(),
    {
        Point::new(self.x2(), self.y2())
    }

    /// The smallest rectangle covering both rectangles.
    pub fn union(&self, other: &Self) -> (r: Self)
        requires
            self.corner_fits(),
            other.corner_fits(),
            S::lowest() <= spec_max(self.right(), other.right()) - spec_min(self.left(), other.left())
                <= S::highest(),
            S::lowest() <= spec_max(self.bottom(), other.bottom()) - spec_min(self.top(), other.top())
                <= S::highest(),
        ensures
            r.left() == spec_min(self.left(), other.left()),
            r.top() == spec_min(self.top(), other.top()),
            r.right() == spec_max(self.right(), other.right()),
            r.bottom() == spec_max(self.bottom(), other.bottom()),
    {
        let min_x = if self.x1().less_than(&other.x1()) {
            self.x1()
        } else {
            other.x1()
        };
        let min_y = if self.y1().less_than(&other.y1()) {
            self.y1()
        } else {
            other.y1()
        };
        let max_x = if other.x2().less_than(&self.x2()) {
            self.x2()
        } else {
            other.x2()
        };
        let max_y = if other.y2().less_than(&self.y2()) {
            self.y2()
        } else {
            other.y2()
        };
        Self::new(Point::new(min_x, min_y), Point::new(max_x, max_y))
    }

    /// Whether the two rectangles touch or overlap; rectangles that only share
    /// an edge or a corner count.
    pub fn intersects_with(&self, other: &Self) -> (r: bool)
        requires
            self.intersects_defined(*other),
        ensures
            r == !self.spec_apart(*other),
    {
        let has_no_overlap = self.x2().less_than(&other.origin.x) || other.x2().less_than(
            &self.origin.x,
        ) || self.y2().less_than(&other.origin.y) || other.y2().less_than(&self.origin.y);
        !has_no_overlap
    }

    /// Whether `point` lies within the rectangle, its edges included.
    pub fn contains(&self, point: &Point<S>) -> (r: bool)
        requires
            self.contains_defined(*point),
        ensures
            r == self.spec_contains(*point),
    {
        !point.x.less_than(&self.origin.x) && !self.x2().less_than(&point.x) && !point.y.less_than(
            &self.origin.y,
        ) && !self.y2().less_than(&point.y)
    }

    /// Whether both corners of `rect` lie within this rectangle.
    pub fn contains_rect(&self, rect: &Rect<S>) -> (r: bool)
        requires
            self.contains_defined(rect.origin),
            self.spec_contains(rect.origin) ==> rect.corner_fits(),
        ensures
            r == (self.spec_contains(rect.origin) && self.left() <= rect.right() <= self.right()
                && self.top() <= rect.bottom() <= self.bottom()),
    {
        self.contains(&rect.coord1()) && self.contains(&rect.coord2())
    }

    /// The area: width times height.
    pub fn area(&self) -> (r: S)
        requires
            S::lowest() <= self.size.width.value() * self.size.height.value() <= S::highest(),
        ensures
            r.value() == self.size.width.value() * self.size.height.value(),
    {
        self.size.width.times(self.size.height)
    }
}

} // verus!

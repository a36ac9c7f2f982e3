//! Measurements tagged with the unit they are expressed in, and accessors
//! that read and write the coordinates of points and sizes as such lengths.

use std::marker::PhantomData;

use vstd::prelude::*;

use crate::math::{Point, Size};

verus! {

/// A one-dimensional measurement `S` expressed in the unit `U`.
pub struct Length<S, U>(pub S, pub PhantomData<U>);

impl<S, U> Length<S, U> {
    /// The length `value`.
    pub fn new(value: S) -> (r: Self)
        ensures
            r.0 == value,
    {
        Length(value, PhantomData)
    }

    /// The measurement.
    pub fn get(self) -> (r: S)
        ensures
            r == self.0,
    {
        self.0
    }
}

/// Reads and writes the width and height of a size as lengths.
pub trait SizeExt<S, U>: Sized {
    /// The width held.
    spec fn width_of(&self) -> S;

    /// The height held.
    spec fn height_of(&self) -> S;

    /// The width.
    fn width(&self) -> (r: Length<S, U>)
        ensures
            r.0 == self.width_of(),
    ;

    /// The height.
    fn height(&self) -> (r: Length<S, U>)
        ensures
            r.0 == self.height_of(),
    ;

    /// Replaces the width.
    fn set_width(&mut self, width: Length<S, U>)
        ensures
            final(self).width_of() == width.0,
            final(self).height_of() == old(self).height_of(),
    ;

    /// Replaces the height.
    fn set_height(&mut self, height: Length<S, U>)
        ensures
            final(self).width_of() == old(self).width_of(),
            final(self).height_of() == height.0,
    ;
}

impl<S: Copy, U> SizeExt<S, U> for Size<S> {
    open spec fn width_of(&self) -> S {
        self.width
    }

    open spec fn height_of(&self) -> S {
        self.height
    }

    fn width(&self) -> (r: Length<S, U>) {
        Length::<S, U>::new(self.width)
    }

    fn height(&self) -> (r: Length<S, U>) {
        Length::<S, U>::new(self.height)
    }

    fn set_width(&mut self, width: Length<S, U>) {
        self.width = width.get();
    }

    fn set_height(&mut self, height: Length<S, U>) {
        self.height = height.get();
    }
}

/// Reads and writes the coordinates of a point as lengths.
pub trait PointExt<S, U>: Sized {
    /// The horizontal coordinate held.
    spec fn x_of(&self) -> S;

    /// The vertical coordinate held.
    spec fn y_of(&self) -> S;

    /// The horizontal coordinate.
    fn x(&self) -> (r: Length<S, U>)
        ensures
            r.0 == self.x_of(),
    ;

    /// The vertical coordinate.
    fn y(&self) -> (r: Length<S, U>)
        ensures
            r.0 == self.y_of(),
    ;

    /// Replaces the horizontal coordinate.
    fn set_x(&mut self, x: Length<S, U>)
        ensures
            final(self).x_of() == x.0,
            final(self).y_of() == old(self).y_of(),
    ;

    /// Replaces the vertical coordinate.
    fn set_y(&mut self, y: Length<S, U>)
        ensures
            final(self).x_of() == old(self).x_of(),
            final(self).y_of() == y.0,
    ;
}

impl<S: Copy, U> PointExt<S, U> for Point<S> {
    open spec fn x_of(&self) -> S {
        self.x
    }

    open spec fn y_of(&self) -> S {
        self.y
    }

    fn x(&self) -> (r: Length<S, U>) {
        Length::<S, U>::new(self.x)
    }

    fn y(&self) -> (r: Length<S, U>) {
        Length::<S, U>::new(self.y)
    }

    fn set_x(&mut self, x: Length<S, U>) {
        self.x = x.get();
    }

    fn set_y(&mut self, y: Length<S, U>) {
        self.y = y.get();
    }
}

} // verus!

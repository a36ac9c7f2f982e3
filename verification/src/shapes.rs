//! Measurements used when building shapes, and the paths that outline them.

use vstd::prelude::*;

use crate::math::{Dips, Pixels, Point, Scalar, UPixels, Zero};

verus! {

/// The default width of a stroked line, in a given unit.
pub trait DefaultStrokeWidth: Sized {
    /// Returns the default width of a line stroked in this unit.
    fn default_stroke_width() -> Self;
}

impl DefaultStrokeWidth for Pixels {
    fn default_stroke_width() -> (r: Self)
        ensures
            r.0 == 1,
    {
        Pixels(1)
    }
}

impl DefaultStrokeWidth for UPixels {
    fn default_stroke_width() -> (r: Self)
        ensures
            r.0 == 1,
    {
        UPixels(1)
    }
}

/// The radius of each corner of a rounded rectangle.
#[derive(Debug, Eq, PartialEq, Clone, Copy)]
pub struct CornerRadii<Unit> {
    /// The radius of the top left rounded corner.
    pub top_left: Unit,
    /// The radius of the top right rounded corner.
    pub top_right: Unit,
    /// The radius of the bottom right rounded corner.
    pub bottom_right: Unit,
    /// The radius of the bottom left rounded corner.
    pub bottom_left: Unit,
}

impl<Unit> CornerRadii<Unit> {
    /// Returns radii that are all `radii`.
    pub fn uniform(radii: Unit) -> (r: Self)
        where Unit: Copy,
        ensures
            r.top_left == radii,
            r.top_right == radii,
            r.bottom_right == radii,
            r.bottom_left == radii,
    {
        CornerRadii { top_left: radii, top_right: radii, bottom_right: radii, bottom_left: radii }
    }

    /// Passes each radius to `map`, in the order top left, top right, bottom
    /// right, bottom left, and returns the results.
    pub fn map<UnitB, F: Fn(Unit) -> UnitB>(self, map: F) -> (r: CornerRadii<UnitB>)
        requires
            map.requires((self.top_left,)),
            map.requires((self.top_right,)),
            map.requires((self.bottom_right,)),
            map.requires((self.bottom_left,)),
        ensures
            map.ensures((self.top_left,), r.top_left),
            map.ensures((self.top_right,), r.top_right),
            map.ensures((self.bottom_right,), r.bottom_right),
            map.ensures((self.bottom_left,), r.bottom_left),
    {
        CornerRadii {
            top_left: map(self.top_left),
            top_right: map(self.top_right),
            bottom_right: map(self.bottom_right),
            bottom_left: map(self.bottom_left),
        }
    }
}

/// `size`, or `clamp` when `size` is larger.
pub open spec fn clamp_to<Unit: Scalar>(size: Unit, clamp: Unit) -> Unit {
    if size.value() > clamp.value() {
        clamp
    } else {
        size
    }
}

/// The radii with each one clamped to at most `size`.
pub open spec fn spec_clamped<Unit: Scalar>(radii: CornerRadii<Unit>, size: Unit) -> CornerRadii<Unit> {
    CornerRadii {
        top_left: clamp_to(radii.top_left, size),
        top_right: clamp_to(radii.top_right, size),
        bottom_right: clamp_to(radii.bottom_right, size),
        bottom_left: clamp_to(radii.bottom_left, size),
    }
}

impl<Unit: Scalar> CornerRadii<Unit> {
    /// `size`, but no larger than `clamp`.
    fn clamp_size(size: Unit, clamp: Unit) -> (r: Unit)
        ensures
            r == clamp_to(size, clamp),
    {
        if clamp.less_than(&size) {
            clamp
        } else {
            size
        }
    }

    /// Returns the radii with each one clamped to at most `size`.
    pub fn clamped(self, size: Unit) -> (r: Self)
        ensures
            r == spec_clamped(self, size),
    {
        let mut radii = self;
        radii.top_left = Self::clamp_size(radii.top_left, size);
        radii.top_right = Self::clamp_size(radii.top_right, size);
        radii.bottom_right = Self::clamp_size(radii.bottom_right, size);
        radii.bottom_left = Self::clamp_size(radii.bottom_left, size);
        radii
    }
}

impl<Unit: Zero> Zero for CornerRadii<Unit> {
    open spec fn spec_is_zero(&self) -> bool {
        self.top_left.spec_is_zero() && self.top_right.spec_is_zero() && self.bottom_right.spec_is_zero()
            && self.bottom_left.spec_is_zero()
    }

    fn is_zero(&self) -> (r: bool) {
        self.top_left.is_zero() && self.top_right.is_zero() && self.bottom_right.is_zero()
            && self.bottom_left.is_zero()
    }
}

/// Clamped radii are no larger than the clamp, radii that already fit are
/// kept, and clamping twice to the same size changes nothing more.
pub proof fn lemma_clamped<Unit: Scalar>(radii: CornerRadii<Unit>, size: Unit)
    ensures
        spec_clamped(radii, size).top_left.value() <= size.value(),
        spec_clamped(radii, size).top_right.value() <= size.value(),
        spec_clamped(radii, size).bottom_right.value() <= size.value(),
        spec_clamped(radii, size).bottom_left.value() <= size.value(),
        radii.top_left.value() <= size.value() ==> spec_clamped(radii, size).top_left == radii.top_left,
        radii.top_right.value() <= size.value() ==> spec_clamped(radii, size).top_right == radii.top_right,
        radii.bottom_right.value() <= size.value() ==> spec_clamped(radii, size).bottom_right == radii.bottom_right,
        radii.bottom_left.value() <= size.value() ==> spec_clamped(radii, size).bottom_left == radii.bottom_left,
        spec_clamped(spec_clamped(radii, size), size) == spec_clamped(radii, size),
{
}

/// The smaller of two sizes by value; the first where they are equal.
pub open spec fn smaller_size<Unit: Scalar>(a: Unit, b: Unit) -> Unit {
    if b.value() < a.value() {
        b
    } else {
        a
    }
}

/// Clamping to `a` and then to `b` clamps to the smaller of the two.
pub proof fn lemma_clamped_twice<Unit: Scalar>(radii: CornerRadii<Unit>, a: Unit, b: Unit)
    ensures
        spec_clamped(spec_clamped(radii, a), b) == spec_clamped(radii, smaller_size(a, b)),
{
}

/// The radii with `f` applied to each.
pub open spec fn spec_map<Unit, UnitB>(radii: CornerRadii<Unit>, f: spec_fn(Unit) -> UnitB) -> CornerRadii<UnitB> {
    CornerRadii {
        top_left: f(radii.top_left),
        top_right: f(radii.top_right),
        bottom_right: f(radii.bottom_right),
        bottom_left: f(radii.bottom_left),
    }
}

/// What [`CornerRadii::map`] gives with a function whose every result is
/// `g` of its argument: the radii mapped by `g`.
pub proof fn lemma_map_is_spec_map<Unit, UnitB, F: Fn(Unit) -> UnitB>(
    radii: CornerRadii<Unit>,
    f: F,
    g: spec_fn(Unit) -> UnitB,
    r: CornerRadii<UnitB>,
)
    requires
        forall|x: Unit, y: UnitB| f.ensures((x,), y) ==> y == g(x),
        f.ensures((radii.top_left,), r.top_left),
        f.ensures((radii.top_right,), r.top_right),
        f.ensures((radii.bottom_right,), r.bottom_right),
        f.ensures((radii.bottom_left,), r.bottom_left),
    ensures
        r == spec_map(radii, g),
{
}

/// Mapping by the identity keeps the radii, and mapping by `g` and then by
/// `h` maps by `h` after `g`.
pub proof fn lemma_map_laws<Unit, UnitB, UnitC>(
    radii: CornerRadii<Unit>,
    g: spec_fn(Unit) -> UnitB,
    h: spec_fn(UnitB) -> UnitC,
)
    ensures
        spec_map(radii, |x: Unit| x) == radii,
        spec_map(spec_map(radii, g), h) == spec_map(radii, |x: Unit| h(g(x))),
{
}

/// An entry in a [`Path`].
#[derive(Debug, Clone, Copy, PartialEq, Eq)]
pub enum PathEvent<Unit> {
    /// Begins a path. Must be at the start.
    Begin {
        /// The location to begin at.
        at: Point<Unit>,
        /// The texture coordinate for this path event.
        texture: Point<UPixels>,
    },
    /// A straight line segment.
    Line {
        /// The end location of the line.
        to: Point<Unit>,
        /// The texture coordinate for this path event.
        texture: Point<UPixels>,
    },
    /// A quadratic curve (one control point).
    Quadratic {
        /// The control point for the curve.
        ctrl: Point<Unit>,
        /// The end location of the curve.
        to: Point<Unit>,
        /// The texture coordinate for this path event.
        texture: Point<UPixels>,
    },
    /// A cubic curve (two control points).
    Cubic {
        /// The first control point for the curve.
        ctrl1: Point<Unit>,
        /// The second control point for the curve.
        ctrl2: Point<Unit>,
        /// The end location of the curve.
        to: Point<Unit>,
        /// The texture coordinate for this path event.
        texture: Point<UPixels>,
    },
    /// Ends the path. Must be the last entry.
    End {
        /// Whether the path should be closed.
        close: bool,
    },
}

/// The texture coordinate of untextured paths.
pub open spec fn no_texture() -> Point<UPixels> {
    Point { x: UPixels(0), y: UPixels(0) }
}

fn origin_texture() -> (r: Point<UPixels>)
    ensures
        r == no_texture(),
{
    Point::new(UPixels(0), UPixels(0))
}

/// A geometric shape defined by a path: a list of events, optionally
/// carrying texture coordinates.
#[derive(Debug, Clone)]
pub struct Path<Unit, const TEXTURED: bool> {
    events: Vec<PathEvent<Unit>>,
}

impl<Unit, const TEXTURED: bool> View for Path<Unit, TEXTURED> {
    type V = Seq<PathEvent<Unit>>;

    /// The events of the path, in order.
    closed spec fn view(&self) -> Seq<PathEvent<Unit>> {
        self.events@
    }
}

impl<Unit, const TEXTURED: bool> Path<Unit, TEXTURED> {
    /// A path of `events`.
    pub fn from_events(events: Vec<PathEvent<Unit>>) -> (r: Self)
        ensures
            r@ == events@,
    {
        Path { events }
    }

    /// The events of the path, in order.
    pub fn events(&self) -> (r: &Vec<PathEvent<Unit>>)
        ensures
            r@ == self@,
    {
        &self.events
    }
}

/// Builds a [`Path`].
pub struct PathBuilder<Unit, const TEXTURED: bool> {
    path: Path<Unit, TEXTURED>,
    current_location: Point<Unit>,
    close: bool,
}

impl<Unit, const TEXTURED: bool> PathBuilder<Unit, TEXTURED> {
    /// The events recorded so far.
    pub closed spec fn events(&self) -> Seq<PathEvent<Unit>> {
        self.path@
    }

    /// The location the next segment starts from.
    pub closed spec fn location(&self) -> Point<Unit> {
        self.current_location
    }

    /// Whether the path will be closed.
    pub closed spec fn closing(&self) -> bool {
        self.close
    }

    /// A builder that continues `path` with its events cleared, starting from
    /// `start_at`.
    pub fn from_path(path: Path<Unit, TEXTURED>, start_at: Point<Unit>) -> (r: Self)
        ensures
            r.events() == Seq::<PathEvent<Unit>>::empty(),
            r.location() == start_at,
            !r.closing(),
    {
        let mut path = path;
        path.events.clear();
        PathBuilder { path, current_location: start_at, close: false }
    }

    fn restart(&mut self, begin: PathEvent<Unit>)
        ensures
            final(self).events() == seq![begin],
            final(self).location() == old(self).location(),
            final(self).closing() == old(self).closing(),
    {
        if self.path.events.len() == 0 {
            self.path.events.push(begin);
        } else {
            self.path.events.truncate(1);
            self.path.events.set(0, begin);
        }
        assert(self.path.events@ =~= seq![begin]);
    }

    fn push_event(self, event: PathEvent<Unit>, to: Point<Unit>) -> (r: Self)
        ensures
            r.events() == self.events().push(event),
            r.location() == to,
            r.closing() == self.closing(),
    {
        let mut builder = self;
        builder.path.events.push(event);
        builder.current_location = to;
        builder
    }

    fn finish(self) -> (r: Path<Unit, TEXTURED>)
        ensures
            r@ == self.events().push(PathEvent::End { close: self.closing() }),
    {
        let mut path = self.path;
        path.events.push(PathEvent::End { close: self.close });
        path
    }
}

impl<Unit: Copy> PathBuilder<Unit, false> {
    /// Creates a new path with the initial position `start_at`.
    pub fn new(start_at: Point<Unit>) -> (r: Self)
        ensures
            r.events() == seq![PathEvent::Begin { at: start_at, texture: no_texture() }],
            r.location() == start_at,
            !r.closing(),
    {
        let mut events = Vec::new();
        events.push(PathEvent::Begin { at: start_at, texture: origin_texture() });
        assert(events@ =~= seq![PathEvent::Begin { at: start_at, texture: no_texture() }]);
        PathBuilder { path: Path { events }, current_location: start_at, close: false }
    }

    /// Clears this builder to a state as if it had just been created with
    /// [`PathBuilder::new`]; the closing flag is kept.
    pub fn reset(&mut self, start_at: Point<Unit>)
        ensures
            final(self).events() == seq![PathEvent::Begin { at: start_at, texture: no_texture() }],
            final(self).location() == start_at,
            final(self).closing() == old(self).closing(),
    {
        self.current_location = start_at;
        self.restart(PathEvent::Begin { at: start_at, texture: origin_texture() });
    }

    /// Returns the built path.
    pub fn build(self) -> (r: Path<Unit, false>)
        ensures
            r@ == self.events().push(PathEvent::End { close: self.closing() }),
    {
        self.finish()
    }

    /// Creates a straight line from the current location to `end_at`.
    pub fn line_to(self, end_at: Point<Unit>) -> (r: Self)
        ensures
            r.events() == self.events().push(PathEvent::Line { to: end_at, texture: no_texture() }),
            r.location() == end_at,
            r.closing() == self.closing(),
    {
        self.push_event(PathEvent::Line { to: end_at, texture: origin_texture() }, end_at)
    }

    /// Creates a quadratic curve from the current location to `end_at` using
    /// `control` as the curve's control point.
    pub fn quadratic_curve_to(self, control: Point<Unit>, end_at: Point<Unit>) -> (r: Self)
        ensures
            r.events() == self.events().push(
                PathEvent::Quadratic { ctrl: control, to: end_at, texture: no_texture() },
            ),
            r.location() == end_at,
            r.closing() == self.closing(),
    {
        self.push_event(
            PathEvent::Quadratic { ctrl: control, to: end_at, texture: origin_texture() },
            end_at,
        )
    }

    /// Creates a cubic curve from the current location to `end_at` using
    /// `control1` and `control2` as the curve's control points.
    pub fn cubic_curve_to(self, control1: Point<Unit>, control2: Point<Unit>, end_at: Point<Unit>) -> (r:
        Self)
        ensures
            r.events() == self.events().push(
                PathEvent::Cubic { ctrl1: control1, ctrl2: control2, to: end_at, texture: no_texture() },
            ),
            r.location() == end_at,
            r.closing() == self.closing(),
    {
        self.push_event(
            PathEvent::Cubic { ctrl1: control1, ctrl2: control2, to: end_at, texture: origin_texture() },
            end_at,
        )
    }

    /// Closes the path, connecting the current location to the path's
    /// starting location.
    pub fn close(self) -> (r: Path<Unit, false>)
        ensures
            r@ == self.events().push(PathEvent::End { close: true }),
    {
        let mut builder = self;
        builder.close = true;
        builder.build()
    }
}

impl<Unit: Copy> PathBuilder<Unit, true> {
    /// Creates a new textured path with the initial position `start_at`.
    pub fn new_textured(start_at: Point<Unit>, texture: Point<UPixels>) -> (r: Self)
        ensures
            r.events() == seq![PathEvent::Begin { at: start_at, texture }],
            r.location() == start_at,
            !r.closing(),
    {
        let mut events = Vec::new();
        events.push(PathEvent::Begin { at: start_at, texture });
        assert(events@ =~= seq![PathEvent::Begin { at: start_at, texture }]);
        PathBuilder { path: Path { events }, current_location: start_at, close: false }
    }

    /// Clears this builder to a state as if it had just been created with
    /// [`PathBuilder::new_textured`]; the closing flag is kept.
    pub fn reset(&mut self, start_at: Point<Unit>, texture: Point<UPixels>)
        ensures
            final(self).events() == seq![PathEvent::Begin { at: start_at, texture }],
            final(self).location() == start_at,
            final(self).closing() == old(self).closing(),
    {
        self.current_location = start_at;
        self.restart(PathEvent::Begin { at: start_at, texture });
    }

    /// Returns the built path.
    pub fn build(self) -> (r: Path<Unit, true>)
        ensures
            r@ == self.events().push(PathEvent::End { close: self.closing() }),
    {
        self.finish()
    }

    /// Creates a straight line from the current location to `end_at`.
    pub fn line_to(self, end_at: Point<Unit>, texture: Point<UPixels>) -> (r: Self)
        ensures
            r.events() == self.events().push(PathEvent::Line { to: end_at, texture }),
            r.location() == end_at,
            r.closing() == self.closing(),
    {
        self.push_event(PathEvent::Line { to: end_at, texture }, end_at)
    }

    /// Creates a quadratic curve from the current location to `end_at` using
    /// `control` as the curve's control point.
    pub fn quadratic_curve_to(
        self,
        control: Point<Unit>,
        end_at: Point<Unit>,
        texture: Point<UPixels>,
    ) -> (r: Self)
        ensures
            r.events() == self.events().push(PathEvent::Quadratic { ctrl: control, to: end_at, texture }),
            r.location() == end_at,
            r.closing() == self.closing(),
    {
        self.push_event(PathEvent::Quadratic { ctrl: control, to: end_at, texture }, end_at)
    }

    /// Creates a cubic curve from the current location to `end_at` using
    /// `control1` and `control2` as the curve's control points.
    pub fn cubic_curve_to(
        self,
        control1: Point<Unit>,
        control2: Point<Unit>,
        end_at: Point<Unit>,
        texture: Point<UPixels>,
    ) -> (r: Self)
        ensures
            r.events() == self.events().push(
                PathEvent::Cubic { ctrl1: control1, ctrl2: control2, to: end_at, texture },
            ),
            r.location() == end_at,
            r.closing() == self.closing(),
    {
        self.push_event(PathEvent::Cubic { ctrl1: control1, ctrl2: control2, to: end_at, texture }, end_at)
    }

    /// Closes the path, connecting the current location to the path's
    /// starting location.
    pub fn close(self) -> (r: Path<Unit, true>)
        ensures
            r@ == self.events().push(PathEvent::End { close: true }),
    {
        let mut builder = self;
        builder.close = true;
        builder.build()
    }
}

/// Whether `events` is a path in progress: it begins with
/// [`PathEvent::Begin`] and holds no other `Begin` and no `End`.
pub open spec fn path_in_progress<Unit>(events: Seq<PathEvent<Unit>>) -> bool {
    &&& events.len() >= 1
    &&& events[0] is Begin
    &&& forall|i: int| 1 <= i < events.len() ==> !(#[trigger] events[i] is Begin) && !(events[i] is End)
}

/// Whether `events` is a complete path: it begins with
/// [`PathEvent::Begin`], ends with [`PathEvent::End`], and holds neither
/// anywhere else.
pub open spec fn complete_path<Unit>(events: Seq<PathEvent<Unit>>) -> bool {
    &&& events.len() >= 2
    &&& path_in_progress(events.drop_last())
    &&& events.last() is End
}

/// A builder started with `new` (or reset) stays a path in progress under
/// every segment it adds, and building or closing it gives a complete path.
pub proof fn lemma_builder_paths_are_complete<Unit>(events: Seq<PathEvent<Unit>>, event: PathEvent<Unit>, close: bool)
    requires
        path_in_progress(events),
    ensures
        !(event is Begin) && !(event is End) ==> path_in_progress(events.push(event)),
        complete_path(events.push(PathEvent::End { close })),
{
    assert(events.push(PathEvent::<Unit>::End { close }).drop_last() =~= events);
    if !(event is Begin) && !(event is End) {
        let pushed = events.push(event);
        assert forall|i: int| 1 <= i < pushed.len() implies !(#[trigger] pushed[i] is Begin) && !(pushed[i] is End) by {
            if i < events.len() {
                assert(pushed[i] == events[i]);
            }
        }
    }
}

} // verus!

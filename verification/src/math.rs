//! Integer measurement types and the generic point, size and rectangle built
//! on them.

use vstd::prelude::*;

pub mod length;
pub mod rect;

verus! {

/// A whole-number measurement that the geometry types can be built from.
///
/// `value` is the mathematical integer that a measurement stands for; every
/// operation is stated over it.
pub trait Scalar: Copy + Sized {
    /// The integer this measurement stands for.
    spec fn value(self) -> int;

    /// The smallest integer this type can hold.
    spec fn lowest() -> int;

    /// The largest integer this type can hold.
    spec fn highest() -> int;

    /// Every value lies in the representable range.
    proof fn lemma_in_range(self)
        ensures
            Self::lowest() <= self.value() <= Self::highest(),
    ;

    /// Zero can be represented.
    proof fn lemma_zero_in_range()
        ensures
            Self::lowest() <= 0 <= Self::highest(),
    ;

    /// Builds a measurement from an integer in range.
    fn from_value(v: i64) -> (r: Self)
        requires
            Self::lowest() <= v <= Self::highest(),
        ensures
            r.value() == v,
    ;

    /// Sum of two measurements; the sum must be representable.
    fn plus(self, rhs: Self) -> (r: Self)
        requires
            Self::lowest() <= self.value() + rhs.value() <= Self::highest(),
        ensures
            r.value() == self.value() + rhs.value(),
    ;

    /// Difference of two measurements; it must be representable.
    fn minus(self, rhs: Self) -> (r: Self)
        requires
            Self::lowest() <= self.value() - rhs.value() <= Self::highest(),
        ensures
            r.value() == self.value() - rhs.value(),
    ;

    /// Product of two measurements; it must be representable.
    fn times(self, rhs: Self) -> (r: Self)
        requires
            Self::lowest() <= self.value() * rhs.value() <= Self::highest(),
        ensures
            r.value() == self.value() * rhs.value(),
    ;

    /// Quotient of two measurements, truncated toward zero; the divisor must
    /// not be zero and the quotient must be representable.
    fn over(self, rhs: Self) -> (r: Self)
        requires
            rhs.value() != 0,
            Self::lowest() <= trunc_div(self.value(), rhs.value()) <= Self::highest(),
        ensures
            r.value() == trunc_div(self.value(), rhs.value()),
    ;

    /// Whether `self` is strictly smaller than `rhs`.
    fn less_than(&self, rhs: &Self) -> (r: bool)
        ensures
            r == (self.value() < rhs.value()),
    ;
}

/// The smaller of two measurements (the first one when they are equal).
pub open spec fn spec_min(a: int, b: int) -> int {
    if b < a { b } else { a }
}

/// The larger of two measurements (the second one when they are equal).
pub open spec fn spec_max(a: int, b: int) -> int {
    if b < a { a } else { b }
}

/// Returns the smaller of `a` and `b`, as `Ord::min` does.
pub fn scalar_min<S: Scalar>(a: S, b: S) -> (r: S)
    ensures
        r.value() == spec_min(a.value(), b.value()),
        r == (if b.value() < a.value() { b } else { a }),
{
    if b.less_than(&a) {
        b
    } else {
        a
    }
}

/// Returns the larger of `a` and `b`, as `Ord::max` does.
pub fn scalar_max<S: Scalar>(a: S, b: S) -> (r: S)
    ensures
        r.value() == spec_max(a.value(), b.value()),
        r == (if b.value() < a.value() { a } else { b }),
{
    if b.less_than(&a) {
        a
    } else {
        b
    }
}

impl Scalar for u16 {
    open spec fn value(self) -> int {
        self as int
    }

    open spec fn lowest() -> int {
        0
    }

    open spec fn highest() -> int {
        u16::MAX as int
    }

    proof fn lemma_in_range(self) {
    }

    proof fn lemma_zero_in_range() {
    }

    fn from_value(v: i64) -> (r: Self) {
        v as u16
    }

    fn plus(self, rhs: Self) -> (r: Self) {
        self + rhs
    }

    fn minus(self, rhs: Self) -> (r: Self) {
        self - rhs
    }

    fn times(self, rhs: Self) -> (r: Self) {
        self * rhs
    }

    fn over(self, rhs: Self) -> (r: Self) {
        self / rhs
    }

    fn less_than(&self, rhs: &Self) -> (r: bool) {
        *self < *rhs
    }
}

impl Scalar for u32 {
    open spec fn value(self) -> int {
        self as int
    }

    open spec fn lowest() -> int {
        0
    }

    open spec fn highest() -> int {
        u32::MAX as int
    }

    proof fn lemma_in_range(self) {
    }

    proof fn lemma_zero_in_range() {
    }

    fn from_value(v: i64) -> (r: Self) {
        v as u32
    }

    fn plus(self, rhs: Self) -> (r: Self) {
        self + rhs
    }

    fn minus(self, rhs: Self) -> (r: Self) {
        self - rhs
    }

    fn times(self, rhs: Self) -> (r: Self) {
        self * rhs
    }

    fn over(self, rhs: Self) -> (r: Self) {
        self / rhs
    }

    fn less_than(&self, rhs: &Self) -> (r: bool) {
        *self < *rhs
    }
}

impl Scalar for i32 {
    open spec fn value(self) -> int {
        self as int
    }

    open spec fn lowest() -> int {
        i32::MIN as int
    }

    open spec fn highest() -> int {
        i32::MAX as int
    }

    proof fn lemma_in_range(self) {
    }

    proof fn lemma_zero_in_range() {
    }

    fn from_value(v: i64) -> (r: Self) {
        v as i32
    }

    fn plus(self, rhs: Self) -> (r: Self) {
        self + rhs
    }

    fn minus(self, rhs: Self) -> (r: Self) {
        self - rhs
    }

    fn times(self, rhs: Self) -> (r: Self) {
        self * rhs
    }

    fn over(self, rhs: Self) -> (r: Self) {
        proof {
            lemma_trunc_div_overflow();
        }
        i32_div(self, rhs)
    }

    fn less_than(&self, rhs: &Self) -> (r: bool) {
        *self < *rhs
    }
}

/// Device-independent pixels: a length in thousandths of a centimeter.
#[derive(Clone, Copy, Debug, Default, PartialEq, Eq, Structural, Hash)]
pub struct Dips(pub i32);

/// Signed physical pixels.
#[derive(Clone, Copy, Debug, Default, PartialEq, Eq, Structural, Hash)]
pub struct Pixels(pub i32);

/// Unsigned physical pixels.
#[derive(Clone, Copy, Debug, Default, PartialEq, Eq, Structural, Hash)]
pub struct UPixels(pub u32);

impl Scalar for Dips {
    open spec fn value(self) -> int {
        self.0 as int
    }

    open spec fn lowest() -> int {
        i32::MIN as int
    }

    open spec fn highest() -> int {
        i32::MAX as int
    }

    proof fn lemma_in_range(self) {
    }

    proof fn lemma_zero_in_range() {
    }

    fn from_value(v: i64) -> (r: Self) {
        Dips(v as i32)
    }

    fn plus(self, rhs: Self) -> (r: Self) {
        Dips(self.0 + rhs.0)
    }

    fn minus(self, rhs: Self) -> (r: Self) {
        Dips(self.0 - rhs.0)
    }

    fn times(self, rhs: Self) -> (r: Self) {
        Dips(self.0 * rhs.0)
    }

    fn over(self, rhs: Self) -> (r: Self) {
        proof {
            lemma_trunc_div_overflow();
        }
        Dips(i32_div(self.0, rhs.0))
    }

    fn less_than(&self, rhs: &Self) -> (r: bool) {
        self.0 < rhs.0
    }
}

impl Scalar for Pixels {
    open spec fn value(self) -> int {
        self.0 as int
    }

    open spec fn lowest() -> int {
        i32::MIN as int
    }

    open spec fn highest() -> int {
        i32::MAX as int
    }

    proof fn lemma_in_range(self) {
    }

    proof fn lemma_zero_in_range() {
    }

    fn from_value(v: i64) -> (r: Self) {
        Pixels(v as i32)
    }

    fn plus(self, rhs: Self) -> (r: Self) {
        Pixels(self.0 + rhs.0)
    }

    fn minus(self, rhs: Self) -> (r: Self) {
        Pixels(self.0 - rhs.0)
    }

    fn times(self, rhs: Self) -> (r: Self) {
        Pixels(self.0 * rhs.0)
    }

    fn over(self, rhs: Self) -> (r: Self) {
        proof {
            lemma_trunc_div_overflow();
        }
        Pixels(i32_div(self.0, rhs.0))
    }

    fn less_than(&self, rhs: &Self) -> (r: bool) {
        self.0 < rhs.0
    }
}

impl Scalar for UPixels {
    open spec fn value(self) -> int {
        self.0 as int
    }

    open spec fn lowest() -> int {
        0
    }

    open spec fn highest() -> int {
        u32::MAX as int
    }

    proof fn lemma_in_range(self) {
    }

    proof fn lemma_zero_in_range() {
    }

    fn from_value(v: i64) -> (r: Self) {
        UPixels(v as u32)
    }

    fn plus(self, rhs: Self) -> (r: Self) {
        UPixels(self.0 + rhs.0)
    }

    fn minus(self, rhs: Self) -> (r: Self) {
        UPixels(self.0 - rhs.0)
    }

    fn times(self, rhs: Self) -> (r: Self) {
        UPixels(self.0 * rhs.0)
    }

    fn over(self, rhs: Self) -> (r: Self) {
        UPixels(self.0 / rhs.0)
    }

    fn less_than(&self, rhs: &Self) -> (r: bool) {
        self.0 < rhs.0
    }
}

impl Dips {
    /// One centimeter.
    pub fn cm() -> (r: Dips)
        ensures
            r.0 == 1000,
    {
        Dips(1000)
    }

    /// One inch.
    pub fn inch() -> (r: Dips)
        ensures
            r.0 == 2540,
    {
        Dips(2540)
    }

    /// One millimeter: a tenth of a centimeter.
    pub fn mm() -> (r: Dips)
        ensures
            r.0 == 100,
    {
        proof {
            assert(vstd::math::abs(1000) == 1000 && vstd::math::abs(10) == 10);
            assert(1000nat / 10nat == 100);
        }
        Dips::cm().div(10)
    }

    /// Integer division of the measurement, truncating toward zero.
    pub fn div(self, rhs: i32) -> (r: Self)
        requires
            rhs != 0,
            !(self.0 == i32::MIN && rhs == -1),
        ensures
            r.0 as int == trunc_div(self.0 as int, rhs as int),
    {
        Dips(i32_div(self.0, rhs))
    }
}

impl Dips {
    /// The measurement with its sign flipped.
    pub fn neg(self) -> (r: Self)
        requires
            self.0 != i32::MIN,
        ensures
            r.0 == -self.0,
    {
        Dips(-self.0)
    }
}

impl Pixels {
    /// The measurement with its sign flipped.
    pub fn neg(self) -> (r: Self)
        requires
            self.0 != i32::MIN,
        ensures
            r.0 == -self.0,
    {
        Pixels(-self.0)
    }

    /// Integer division of the measurement, truncating toward zero.
    pub fn div(self, rhs: i32) -> (r: Self)
        requires
            rhs != 0,
            !(self.0 == i32::MIN && rhs == -1),
        ensures
            r.0 as int == trunc_div(self.0 as int, rhs as int),
    {
        Pixels(i32_div(self.0, rhs))
    }
}

impl UPixels {
    /// Integer division of the measurement, rounding down.
    pub fn div(self, rhs: u32) -> (r: Self)
        requires
            rhs != 0,
        ensures
            r.0 == self.0 / rhs,
    {
        UPixels(self.0 / rhs)
    }
}

/// Division that truncates toward zero, as Rust's `/` does on signed integers.
pub open spec fn trunc_div(a: int, b: int) -> int {
    let q: int = (vstd::math::abs(a) / vstd::math::abs(b)) as int;
    if (a >= 0) == (b >= 0) {
        q
    } else {
        -q
    }
}

/// The one quotient of `i32` values that `i32` cannot hold.
proof fn lemma_trunc_div_overflow()
    ensures
        trunc_div(i32::MIN as int, -1) == i32::MAX + 1,
{
    assert(vstd::math::abs(i32::MIN as int) == i32::MAX + 1);
    assert(vstd::math::abs(-1) == 1);
}

/// Divides `a` by `b`, truncating toward zero.
fn i32_div(a: i32, b: i32) -> (r: i32)
    requires
        b != 0,
        !(a == i32::MIN && b == -1),
    ensures
        r as int == trunc_div(a as int, b as int),
{
    let ua: u64 = if a >= 0 { a as u64 } else { (-(a as i64)) as u64 };
    let ub: u64 = if b >= 0 { b as u64 } else { (-(b as i64)) as u64 };
    let q: u64 = ua / ub;
    assert(q <= ua) by (nonlinear_arith)
        requires ub >= 1, q == ua / ub;
    if (a >= 0) == (b >= 0) {
        assert(q <= i32::MAX) by {
            if a == i32::MIN {
                assert(ub >= 2);
                assert(q <= ua / 2) by (nonlinear_arith)
                    requires ub >= 2, q == ua / ub;
            }
        }
        q as i32
    } else {
        (-(q as i64)) as i32
    }
}

/// Reports whether a measurement is zero.
pub trait Zero {
    /// Whether the value counts as zero.
    spec fn spec_is_zero(&self) -> bool;

    /// Returns whether the value counts as zero.
    fn is_zero(&self) -> (r: bool)
        ensures
            r == self.spec_is_zero(),
    ;
}

impl Zero for Dips {
    open spec fn spec_is_zero(&self) -> bool {
        self.0 == 0
    }

    fn is_zero(&self) -> (r: bool) {
        self.0 == 0
    }
}

impl Zero for Pixels {
    open spec fn spec_is_zero(&self) -> bool {
        self.0 == 0
    }

    fn is_zero(&self) -> (r: bool) {
        self.0 == 0
    }
}

impl Zero for UPixels {
    open spec fn spec_is_zero(&self) -> bool {
        self.0 == 0
    }

    fn is_zero(&self) -> (r: bool) {
        self.0 == 0
    }
}

/// The bare integer types answer the question inverted: they report whether
/// the value is non-zero.
impl Zero for i32 {
    open spec fn spec_is_zero(&self) -> bool {
        *self != 0
    }

    fn is_zero(&self) -> (r: bool) {
        *self != 0
    }
}

impl Zero for u32 {
    open spec fn spec_is_zero(&self) -> bool {
        *self != 0
    }

    fn is_zero(&self) -> (r: bool) {
        *self != 0
    }
}

/// The unit of measurements whose unit is not known.
#[derive(Clone, Copy, Debug, Default)]
pub struct Unknown;

/// A two-dimensional location.
#[derive(Clone, Copy, Debug, Default, PartialEq, Eq, Hash)]
pub struct Point<Unit> {
    pub x: Unit,
    pub y: Unit,
}

impl<Unit> Point<Unit> {
    /// Returns a point at `x`, `y`.
    pub fn new(x: Unit, y: Unit) -> (r: Self)
        ensures
            r.x == x,
            r.y == y,
    {
        Point { x, y }
    }
}

impl Point<UPixels> {
    /// Converts each coordinate into a bare `u32`.
    pub fn into_u32(self) -> (r: Point<u32>)
        ensures
            r.x == self.x.0,
            r.y == self.y.0,
    {
        Point { x: self.x.0, y: self.y.0 }
    }
}

impl<Unit: Zero> Point<Unit> {
    /// Whether both coordinates count as zero.
    pub fn is_zero(&self) -> (r: bool)
        ensures
            r == (self.x.spec_is_zero() && self.y.spec_is_zero()),
    {
        self.x.is_zero() && self.y.is_zero()
    }
}

impl<Unit: Scalar> Point<Unit> {
    /// Moves the point by `size`.
    pub fn offset_by(self, size: Size<Unit>) -> (r: Self)
        requires
            Unit::lowest() <= self.x.value() + size.width.value() <= Unit::highest(),
            Unit::lowest() <= self.y.value() + size.height.value() <= Unit::highest(),
        ensures
            r.x.value() == self.x.value() + size.width.value(),
            r.y.value() == self.y.value() + size.height.value(),
    {
        Point { x: self.x.plus(size.width), y: self.y.plus(size.height) }
    }

    /// The sum of two points, coordinate by coordinate.
    pub fn add(self, rhs: Self) -> (r: Self)
        requires
            Unit::lowest() <= self.x.value() + rhs.x.value() <= Unit::highest(),
            Unit::lowest() <= self.y.value() + rhs.y.value() <= Unit::highest(),
        ensures
            r.x.value() == self.x.value() + rhs.x.value(),
            r.y.value() == self.y.value() + rhs.y.value(),
    {
        Point { x: self.x.plus(rhs.x), y: self.y.plus(rhs.y) }
    }

    /// Scales the coordinates by the width and height of `rhs`.
    pub fn mul(self, rhs: Size<Unit>) -> (r: Self)
        requires
            Unit::lowest() <= self.x.value() * rhs.width.value() <= Unit::highest(),
            Unit::lowest() <= self.y.value() * rhs.height.value() <= Unit::highest(),
        ensures
            r.x.value() == self.x.value() * rhs.width.value(),
            r.y.value() == self.y.value() * rhs.height.value(),
    {
        Point { x: self.x.times(rhs.width), y: self.y.times(rhs.height) }
    }

    /// Divides the coordinates by the width and height of `rhs`, truncating
    /// toward zero.
    pub fn div(self, rhs: Size<Unit>) -> (r: Self)
        requires
            rhs.width.value() != 0,
            rhs.height.value() != 0,
            Unit::lowest() <= trunc_div(self.x.value(), rhs.width.value()) <= Unit::highest(),
            Unit::lowest() <= trunc_div(self.y.value(), rhs.height.value()) <= Unit::highest(),
        ensures
            r.x.value() == trunc_div(self.x.value(), rhs.width.value()),
            r.y.value() == trunc_div(self.y.value(), rhs.height.value()),
    {
        Point { x: self.x.over(rhs.width), y: self.y.over(rhs.height) }
    }

    /// The point mirrored through the origin.
    pub fn neg(self) -> (r: Self)
        requires
            Unit::lowest() <= -self.x.value() <= Unit::highest(),
            Unit::lowest() <= -self.y.value() <= Unit::highest(),
        ensures
            r.x.value() == -self.x.value(),
            r.y.value() == -self.y.value(),
    {
        proof {
            Unit::lemma_zero_in_range();
        }
        let zero = Unit::from_value(0);
        Point { x: zero.minus(self.x), y: zero.minus(self.y) }
    }
}

/// A two-dimensional extent.
#[derive(Clone, Copy, Debug, Default, PartialEq, Eq, Hash)]
pub struct Size<Unit> {
    pub width: Unit,
    pub height: Unit,
}

impl<Unit> Size<Unit> {
    /// Returns a size of `width` by `height`.
    pub fn new(width: Unit, height: Unit) -> (r: Self)
        ensures
            r.width == width,
            r.height == height,
    {
        Size { width, height }
    }
}

impl Size<UPixels> {
    /// Converts each dimension into a bare `u32`.
    pub fn into_u32(self) -> (r: Size<u32>)
        ensures
            r.width == self.width.0,
            r.height == self.height.0,
    {
        Size { width: self.width.0, height: self.height.0 }
    }
}

impl<Unit: Scalar> Size<Unit> {
    /// The area covered: width times height.
    pub fn area(&self) -> (r: Unit)
        requires
            Unit::lowest() <= self.width.value() * self.height.value() <= Unit::highest(),
        ensures
            r.value() == self.width.value() * self.height.value(),
    {
        self.width.times(self.height)
    }

    /// Divides both dimensions by `rhs`, truncating toward zero.
    pub fn div(self, rhs: Unit) -> (r: Self)
        requires
            rhs.value() != 0,
            Unit::lowest() <= trunc_div(self.width.value(), rhs.value()) <= Unit::highest(),
            Unit::lowest() <= trunc_div(self.height.value(), rhs.value()) <= Unit::highest(),
        ensures
            r.width.value() == trunc_div(self.width.value(), rhs.value()),
            r.height.value() == trunc_div(self.height.value(), rhs.value()),
    {
        Size { width: self.width.over(rhs), height: self.height.over(rhs) }
    }

    /// Multiplies both dimensions by `rhs`.
    pub fn mul(self, rhs: Unit) -> (r: Self)
        requires
            Unit::lowest() <= self.width.value() * rhs.value() <= Unit::highest(),
            Unit::lowest() <= self.height.value() * rhs.value() <= Unit::highest(),
        ensures
            r.width.value() == self.width.value() * rhs.value(),
            r.height.value() == self.height.value() * rhs.value(),
    {
        Size { width: self.width.times(rhs), height: self.height.times(rhs) }
    }
}

impl<Unit: Zero> Size<Unit> {
    /// Whether both dimensions count as zero.
    pub fn is_zero(&self) -> (r: bool)
        ensures
            r == (self.width.spec_is_zero() && self.height.spec_is_zero()),
    {
        self.width.is_zero() && self.height.is_zero()
    }
}

/// Reinterprets a size as the point at its far corner.
pub fn size_to_point<Unit>(size: Size<Unit>) -> (r: Point<Unit>)
    ensures
        r.x == size.width,
        r.y == size.height,
{
    Point { x: size.width, y: size.height }
}

/// Reinterprets a point as the size from the origin to it.
pub fn point_to_size<Unit>(point: Point<Unit>) -> (r: Size<Unit>)
    ensures
        r.width == point.x,
        r.height == point.y,
{
    Size { width: point.x, height: point.y }
}

/// An axis-aligned rectangle given by its origin and its size.
#[derive(Clone, Copy, Debug, Default, PartialEq, Eq, Hash)]
pub struct Rect<Unit> {
    pub origin: Point<Unit>,
    pub size: Size<Unit>,
}

impl<Unit> Rect<Unit> {
    /// Returns a rectangle at `origin` covering `size`.
    pub fn new(origin: Point<Unit>, size: Size<Unit>) -> (r: Self)
        ensures
            r.origin == origin,
            r.size == size,
    {
        Rect { origin, size }
    }
}

impl Rect<UPixels> {
    /// Converts the origin and size into bare `u32`s.
    pub fn into_u32(self) -> (r: Rect<u32>)
        ensures
            r.origin.x == self.origin.x.0,
            r.origin.y == self.origin.y.0,
            r.size.width == self.size.width.0,
            r.size.height == self.size.height.0,
    {
        Rect { origin: self.origin.into_u32(), size: self.size.into_u32() }
    }
}

impl<Unit: Scalar> Rect<Unit> {
    /// The far corner, `origin + size`, can be represented.
    pub open spec fn extent_fits(self) -> bool {
        &&& Unit::lowest() <= self.origin.x.value() + self.size.width.value() <= Unit::highest()
        &&& Unit::lowest() <= self.origin.y.value() + self.size.height.value() <= Unit::highest()
    }

    /// The smallest x covered (the origin, or the far corner when the width is negative).
    pub open spec fn left(self) -> int {
        spec_min(self.origin.x.value(), self.origin.x.value() + self.size.width.value())
    }

    /// The largest x bounding the rectangle.
    pub open spec fn right(self) -> int {
        spec_max(self.origin.x.value(), self.origin.x.value() + self.size.width.value())
    }

    /// The smallest y covered.
    pub open spec fn top(self) -> int {
        spec_min(self.origin.y.value(), self.origin.y.value() + self.size.height.value())
    }

    /// The largest y bounding the rectangle.
    pub open spec fn bottom(self) -> int {
        spec_max(self.origin.y.value(), self.origin.y.value() + self.size.height.value())
    }

    /// Whether the two rectangles share any area.
    pub open spec fn spec_intersects(self, other: Self) -> bool {
        !(self.right() <= other.left() || other.right() <= self.left() || self.bottom()
            <= other.top() || self.top() >= other.bottom())
    }

    /// Returns the rectangle spanned by two corners, whichever order they
    /// come in.
    pub fn from_extents(p1: Point<Unit>, p2: Point<Unit>) -> (r: Self)
        requires
            Unit::lowest() <= spec_max(p1.x.value(), p2.x.value()) - spec_min(p1.x.value(), p2.x.value()) <= Unit::highest(),
            Unit::lowest() <= spec_max(p1.y.value(), p2.y.value()) - spec_min(p1.y.value(), p2.y.value()) <= Unit::highest(),
        ensures
            r.origin.x.value() == spec_min(p1.x.value(), p2.x.value()),
            r.origin.y.value() == spec_min(p1.y.value(), p2.y.value()),
            r.size.width.value() == spec_max(p1.x.value(), p2.x.value()) - spec_min(p1.x.value(), p2.x.value()),
            r.size.height.value() == spec_max(p1.y.value(), p2.y.value()) - spec_min(p1.y.value(), p2.y.value()),
    {
        let min_x = scalar_min(p1.x, p2.x);
        let min_y = scalar_min(p1.y, p2.y);
        let max_x = scalar_max(p1.x, p2.x);
        let max_y = scalar_max(p1.y, p2.y);
        Rect {
            origin: Point { x: min_x, y: min_y },
            size: Size { width: max_x.minus(min_x), height: max_y.minus(min_y) },
        }
    }

    /// Returns the top-left and bottom-right corners.
    pub fn extents(&self) -> (r: (Point<Unit>, Point<Unit>))
        requires
            self.extent_fits(),
        ensures
            r.0.x.value() == self.left(),
            r.0.y.value() == self.top(),
            r.1.x.value() == self.right(),
            r.1.y.value() == self.bottom(),
    {
        let extent = self.origin.offset_by(self.size);
        (
            Point::new(scalar_min(self.origin.x, extent.x), scalar_min(self.origin.y, extent.y)),
            Point::new(scalar_max(self.origin.x, extent.x), scalar_max(self.origin.y, extent.y)),
        )
    }

    /// Returns whether the two rectangles overlap with a non-empty area.
    pub fn intersects(&self, other: &Self) -> (r: bool)
        requires
            self.extent_fits(),
            other.extent_fits(),
        ensures
            r == self.spec_intersects(*other),
    {
        let (r1_tl, r1_br) = self.extents();
        let (r2_tl, r2_br) = other.extents();
        !(!r2_tl.x.less_than(&r1_br.x) || !r1_tl.x.less_than(&r2_br.x) || !r2_tl.y.less_than(
            &r1_br.y,
        ) || !r1_tl.y.less_than(&r2_br.y))
    }
}

/// Returns the rectangle at the origin covering `size`.
pub fn rect_from_size<Unit: Scalar>(size: Size<Unit>) -> (r: Rect<Unit>)
    ensures
        r.origin.x.value() == 0,
        r.origin.y.value() == 0,
        r.size == size,
{
    proof {
        Unit::lemma_zero_in_range();
    }
    Rect { origin: Point { x: Unit::from_value(0), y: Unit::from_value(0) }, size }
}

} // verus!

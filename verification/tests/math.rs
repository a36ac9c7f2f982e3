use kludgine::math::length::{Length, PointExt, SizeExt};
use kludgine::math::rect::Rect;
use kludgine::math::{Dips, Pixels, Point, Size, UPixels, Unknown};

#[test]
fn test_rect_contains() {
    let rect = Rect::<i32>::new(Point::new(1, 10), Point::new(3, 12));
    // lower x, lower y
    assert!(!rect.contains(&Point::new(0, 9)));
    // lower x, equal y
    assert!(!rect.contains(&Point::new(0, 10)));
    // equal x, lower y
    assert!(!rect.contains(&Point::new(1, 9)));
    // equal x1, equal y1
    assert!(rect.contains(&Point::new(1, 10)));
    // inside
    assert!(rect.contains(&Point::new(2, 11)));
    // equal x2, equal y2
    assert!(rect.contains(&Point::new(3, 12)));
    // greater x2, equal y2
    assert!(!rect.contains(&Point::new(4, 12)));
    // equal x2, greater y2
    assert!(!rect.contains(&Point::new(3, 13)));
    // greater x2, greater y2
    assert!(!rect.contains(&Point::new(4, 13)));
}

#[test]
fn rect_corners_and_union() {
    let a = Rect::<i32>::new(Point::new(0, 0), Point::new(4, 4));
    let b = Rect::<i32>::new(Point::new(2, -3), Point::new(10, 1));
    assert_eq!(a.x2(), 4);
    assert_eq!(b.y2(), 1);
    let union = a.union(&b);
    assert_eq!(union.origin, Point::new(0, -3));
    assert_eq!(union.size, Size::new(10, 7));
    assert!(a.intersects_with(&b));
    let far = Rect::<i32>::new(Point::new(5, 5), Point::new(6, 6));
    assert!(!a.intersects_with(&far));
    // Touching edges count as intersecting.
    let touching = Rect::<i32>::new(Point::new(4, 0), Point::new(6, 2));
    assert!(a.intersects_with(&touching));
    assert!(union.contains_rect(&a));
    assert!(!a.contains_rect(&b));
    assert_eq!(a.area(), 16);
}

#[test]
fn figures_rect_intersects_needs_area() {
    let a = kludgine::math::Rect::new(Point::new(UPixels(0), UPixels(0)), Size::new(UPixels(4), UPixels(4)));
    let touching =
        kludgine::math::Rect::new(Point::new(UPixels(4), UPixels(0)), Size::new(UPixels(4), UPixels(4)));
    let overlapping =
        kludgine::math::Rect::new(Point::new(UPixels(3), UPixels(3)), Size::new(UPixels(4), UPixels(4)));
    assert!(!a.intersects(&touching));
    assert!(a.intersects(&overlapping));
}

#[test]
fn dips_constants_and_division() {
    assert_eq!(Dips::cm(), Dips(1000));
    assert_eq!(Dips::inch(), Dips(2540));
    assert_eq!(Dips::mm(), Dips(100));
    assert_eq!(Dips(-7).div(2), Dips(-3));
    assert_eq!(Pixels(9).div(-2), Pixels(-4));
    assert_eq!(UPixels(9).div(2), UPixels(4));
}

#[test]
fn length_accessors() {
    let mut size = Size::new(3u32, 4u32);
    let width: Length<u32, Unknown> = size.width();
    assert_eq!(width.get(), 3);
    size.set_height(Length::<u32, Unknown>::new(9));
    assert_eq!(size, Size::new(3, 9));
    let mut point = Point::new(-1i32, 2i32);
    point.set_x(Length::<i32, Unknown>::new(5));
    let y: Length<i32, Unknown> = point.y();
    assert_eq!((point.x, y.get()), (5, 2));
}

#[test]
fn point_and_size_arithmetic() {
    let p = Point::new(Pixels(6), Pixels(-9));
    assert_eq!(p.add(Point::new(Pixels(1), Pixels(2))), Point::new(Pixels(7), Pixels(-7)));
    assert_eq!(p.mul(Size::new(Pixels(2), Pixels(3))), Point::new(Pixels(12), Pixels(-27)));
    assert_eq!(p.div(Size::new(Pixels(4), Pixels(2))), Point::new(Pixels(1), Pixels(-4)));
    assert_eq!(p.neg(), Point::new(Pixels(-6), Pixels(9)));
    assert_eq!(Dips(5).neg(), Dips(-5));
    let s = Size::new(UPixels(9), UPixels(4));
    assert_eq!(s.div(UPixels(2)), Size::new(UPixels(4), UPixels(2)));
    assert_eq!(s.mul(UPixels(3)), Size::new(UPixels(27), UPixels(12)));
    assert_eq!(s.area(), UPixels(36));
}

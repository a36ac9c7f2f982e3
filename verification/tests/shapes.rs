use kludgine::math::{Pixels, Point, UPixels, Zero};
use kludgine::shapes::{CornerRadii, DefaultStrokeWidth, PathBuilder, PathEvent};

#[test]
fn clamped_radii() {
    let radii = CornerRadii {
        top_left: Pixels(1),
        top_right: Pixels(10),
        bottom_right: Pixels(5),
        bottom_left: Pixels(-3),
    };
    let clamped = radii.clamped(Pixels(5));
    assert_eq!(
        clamped,
        CornerRadii {
            top_left: Pixels(1),
            top_right: Pixels(5),
            bottom_right: Pixels(5),
            bottom_left: Pixels(-3),
        }
    );
    assert_eq!(clamped.clamped(Pixels(5)), clamped);
}

#[test]
fn map_and_zero() {
    let radii = CornerRadii::uniform(UPixels(2));
    let doubled = radii.map(|r| UPixels(r.0 * 2));
    assert_eq!(doubled, CornerRadii::uniform(UPixels(4)));
    assert!(CornerRadii::uniform(Pixels(0)).is_zero());
    assert!(!CornerRadii::uniform(Pixels(1)).is_zero());
}

#[test]
fn default_stroke_widths() {
    assert_eq!(Pixels::default_stroke_width(), Pixels(1));
    assert_eq!(UPixels::default_stroke_width(), UPixels(1));
}

#[test]
fn path_builder_records_events() {
    let origin = Point::new(UPixels(0), UPixels(0));
    let path = PathBuilder::new(Point::new(1i32, 2))
        .line_to(Point::new(3, 4))
        .quadratic_curve_to(Point::new(5, 6), Point::new(7, 8))
        .cubic_curve_to(Point::new(9, 10), Point::new(11, 12), Point::new(13, 14))
        .close();
    assert_eq!(
        path.events(),
        &vec![
            PathEvent::Begin {
                at: Point::new(1, 2),
                texture: origin
            },
            PathEvent::Line {
                to: Point::new(3, 4),
                texture: origin
            },
            PathEvent::Quadratic {
                ctrl: Point::new(5, 6),
                to: Point::new(7, 8),
                texture: origin
            },
            PathEvent::Cubic {
                ctrl1: Point::new(9, 10),
                ctrl2: Point::new(11, 12),
                to: Point::new(13, 14),
                texture: origin
            },
            PathEvent::End { close: true },
        ]
    );
    let open = PathBuilder::new(Point::new(0i32, 0)).line_to(Point::new(1, 1)).build();
    assert_eq!(open.events().last(), Some(&PathEvent::End { close: false }));
}

#[test]
fn textured_path_builder_and_reset() {
    let tex = |x: u32, y: u32| Point::new(UPixels(x), UPixels(y));
    let mut builder = PathBuilder::new_textured(Point::new(0i32, 0), tex(1, 1))
        .line_to(Point::new(5, 0), tex(2, 2));
    builder.reset(Point::new(9, 9), tex(3, 3));
    let path = builder.line_to(Point::new(8, 8), tex(4, 4)).close();
    assert_eq!(
        path.events(),
        &vec![
            PathEvent::Begin {
                at: Point::new(9, 9),
                texture: tex(3, 3)
            },
            PathEvent::Line {
                to: Point::new(8, 8),
                texture: tex(4, 4)
            },
            PathEvent::End { close: true },
        ]
    );
}

use kludgine::sprite::source::{PixelRect, PixelSize, SpriteSourceLocation, SpriteSourceSublocation};

fn part(x: u32, y: u32, width: u32, height: u32) -> SpriteSourceSublocation {
    SpriteSourceSublocation {
        source: PixelRect { x: 64, y: 64, width, height },
        destination_x: x,
        destination_y: y,
    }
}

#[test]
fn single_rect_bounds() {
    let rect = PixelRect { x: 3, y: 4, width: 5, height: 6 };
    let location = SpriteSourceLocation::Rect(rect);
    assert_eq!(location.bounds(), rect);
    assert_eq!(location.size(), PixelSize { width: 5, height: 6 });
}

#[test]
fn joined_bounds_cover_all_parts() {
    let location = SpriteSourceLocation::Joined(vec![part(0, 0, 16, 16), part(16, 0, 16, 16), part(8, 20, 4, 4)]);
    assert_eq!(location.bounds(), PixelRect { x: 0, y: 0, width: 32, height: 24 });
    assert_eq!(location.size(), PixelSize { width: 32, height: 24 });
}

#[test]
fn empty_parts_are_passed_over() {
    let location = SpriteSourceLocation::Joined(vec![part(5, 5, 0, 8), part(10, 10, 4, 4), part(100, 100, 0, 0)]);
    assert_eq!(location.bounds(), PixelRect { x: 10, y: 10, width: 4, height: 4 });
}

#[test]
fn no_parts_have_empty_bounds() {
    let location = SpriteSourceLocation::Joined(Vec::new());
    assert_eq!(location.bounds(), PixelRect { x: 0, y: 0, width: 0, height: 0 });
}

#[test]
fn destination_rect_takes_source_size() {
    assert_eq!(part(7, 9, 2, 3).destination_rect(), PixelRect { x: 7, y: 9, width: 2, height: 3 });
}

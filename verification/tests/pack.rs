use kludgine::math::{Size, UPixels};
use kludgine::pack::TexturePacker;

#[test]
fn reallocation() {
    let mut packer = TexturePacker::new(Size::new(UPixels(32), UPixels(2)), 16);
    let first = packer.allocate(Size::new(UPixels(8), UPixels(1))).unwrap();
    let second = packer.allocate(Size::new(UPixels(8), UPixels(1))).unwrap();
    assert_eq!(first.allocation.column, second.allocation.column);
    assert_eq!(first.allocation.shelf, second.allocation.shelf);
    assert_ne!(first.allocation.offset, second.allocation.offset);
    assert!(!first.rect.intersects(&second.rect));
    packer.free(first.allocation);
    let reallocated = packer.allocate(Size::new(UPixels(8), UPixels(1))).unwrap();
    assert_eq!(first, reallocated);

    // New allocations will overflow into the next shelf
    let overflowed = packer.allocate(Size::new(UPixels(8), UPixels(1))).unwrap();
    assert_eq!(first.allocation.column, overflowed.allocation.column);
    assert_ne!(first.allocation.shelf, overflowed.allocation.shelf);

    // We are leaving an empty 8 pixels on this location.

    let next_column = packer.allocate(Size::new(UPixels(8), UPixels(2))).unwrap();
    assert_ne!(first.allocation.column, next_column.allocation.column);

    let last_allocation = packer.allocate(Size::new(UPixels(8), UPixels(2))).unwrap();
    assert_eq!(
        last_allocation.allocation.column,
        next_column.allocation.column
    );

    assert_eq!(packer.allocated().0, 56);
}

#[test]
fn freeing_takes_off_the_run_and_other_shelves_stay_apart() {
    let mut packer = TexturePacker::new(Size::new(UPixels(32), UPixels(4)), 16);
    let a = packer.allocate(Size::new(UPixels(8), UPixels(1))).unwrap();
    let b = packer.allocate(Size::new(UPixels(8), UPixels(1))).unwrap();
    assert_eq!(packer.allocated().0, 16);
    packer.free(a.allocation);
    assert_eq!(packer.allocated().0, 8);
    // A narrower request reuses the freed run, splitting it.
    let c = packer.allocate(Size::new(UPixels(4), UPixels(1))).unwrap();
    assert_eq!(c.rect.origin, a.rect.origin);
    // A taller request opens a new shelf, apart from the first one.
    let d = packer.allocate(Size::new(UPixels(16), UPixels(2))).unwrap();
    assert_ne!(d.allocation.shelf, b.allocation.shelf);
    assert!(d.rect.origin.y.0 >= b.rect.origin.y.0 + b.rect.size.height.0);
    assert!(d.rect.origin.y.0 >= c.rect.origin.y.0 + c.rect.size.height.0);
}

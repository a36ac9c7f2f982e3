use kludgine::clip::{ClipRect, ClipStack, UPxRect, UPxSize};

fn rect(x: u32, y: u32, width: u32, height: u32) -> UPxRect {
    UPxRect { x, y, width, height }
}

#[test]
fn clip_stack_starts_at_surface() {
    let stack = ClipStack::new(UPxSize { width: 400, height: 300 });
    assert_eq!(stack.current(), ClipRect(rect(0, 0, 400, 300)));
}

#[test]
fn pushed_clip_rounds_out_to_whole_pixels() {
    let mut stack = ClipStack::new(UPxSize { width: 400, height: 400 });
    stack.push_clip(rect(5, 6, 10, 10));
    assert_eq!(stack.current(), ClipRect(rect(4, 4, 12, 12)));
}

#[test]
fn pushed_clip_is_relative_and_confined() {
    let mut stack = ClipStack::new(UPxSize { width: 400, height: 400 });
    stack.push_clip(rect(4, 4, 12, 12));
    stack.push_clip(rect(8, 0, 100, 4));
    assert_eq!(stack.current(), ClipRect(rect(12, 4, 4, 4)));
    stack.pop_clip();
    assert_eq!(stack.current(), ClipRect(rect(4, 4, 12, 12)));
    stack.pop_clip();
    assert_eq!(stack.current(), ClipRect(rect(0, 0, 400, 400)));
}

#[test]
fn clip_outside_is_empty() {
    let mut stack = ClipStack::new(UPxSize { width: 40, height: 40 });
    stack.push_clip(rect(1000, 0, 8, 8));
    assert_eq!(stack.current(), ClipRect(rect(0, 0, 0, 0)));
    stack.pop_clip();
    assert_eq!(stack.current(), ClipRect(rect(0, 0, 40, 40)));
}

#[test]
fn clip_touching_edge_is_empty() {
    let current = ClipRect(rect(0, 0, 40, 40));
    assert_eq!(current.clip_to(rect(40, 0, 8, 8)), ClipRect(rect(0, 0, 0, 0)));
    assert_eq!(current.clip_to(rect(36, 36, 8, 8)), ClipRect(rect(36, 36, 4, 4)));
}

#[test]
fn clip_to_offsets_by_current_origin() {
    let current = ClipRect(rect(8, 12, 40, 40));
    assert_eq!(current.clip_to(rect(4, 4, 8, 8)), ClipRect(rect(12, 16, 8, 8)));
    let from_size = ClipRect::from_size(UPxSize { width: 3, height: 5 });
    assert_eq!(from_size, ClipRect(rect(0, 0, 3, 5)));
}

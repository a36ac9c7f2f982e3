use kludgine::color::Color;

#[test]
fn color_debug() {
    assert_eq!(Color::new(1, 2, 3, 4).debug_string(), "#01020304");
}

#[test]
fn color_channels_round_trip() {
    let color = Color::new(0xAB, 0xCD, 0xEF, 0x12);
    assert_eq!(color.0, 0xABCD_EF12);
    assert_eq!(color.red(), 0xAB);
    assert_eq!(color.green(), 0xCD);
    assert_eq!(color.blue(), 0xEF);
    assert_eq!(color.alpha(), 0x12);
}

#[test]
fn color_with_replaces_one_channel() {
    let color = Color::new(10, 20, 30, 40);
    let red = color.with_red(200);
    assert_eq!((red.red(), red.green(), red.blue(), red.alpha()), (200, 20, 30, 40));
    let green = color.with_green(201);
    assert_eq!((green.red(), green.green(), green.blue(), green.alpha()), (10, 201, 30, 40));
    let blue = color.with_blue(202);
    assert_eq!((blue.red(), blue.green(), blue.blue(), blue.alpha()), (10, 20, 202, 40));
    let alpha = color.with_alpha(203);
    assert_eq!((alpha.red(), alpha.green(), alpha.blue(), alpha.alpha()), (10, 20, 30, 203));
}

#[test]
fn color_debug_pads_and_uses_lowercase() {
    assert_eq!(Color::new(0, 0, 0, 0).debug_string(), "#00000000");
    assert_eq!(Color::new(255, 171, 0, 15).debug_string(), "#ffab000f");
}

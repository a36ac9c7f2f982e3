use kludgine::json::{JsonEntry, JsonValue};
use kludgine::math::{Point, Rect, Size, UPixels};
use kludgine::sprite::aseprite::TextureRegion;
use kludgine::sprite::{FrameParseError, FrameTagError, Sprite, SpriteParseError};
use kludgine::time::Duration;

fn number(n: u64) -> JsonValue {
    JsonValue::Number(n.to_string())
}

fn text(s: &str) -> JsonValue {
    JsonValue::String(s.to_string())
}

fn object(entries: Vec<(&str, JsonValue)>) -> JsonValue {
    JsonValue::Object(
        entries
            .into_iter()
            .map(|(key, value)| JsonEntry {
                key: key.to_string(),
                value,
            })
            .collect(),
    )
}

fn frame(x: u64, duration: u64) -> JsonValue {
    object(vec![
        (
            "frame",
            object(vec![
                ("x", number(x)),
                ("y", number(0)),
                ("w", number(8)),
                ("h", number(8)),
            ]),
        ),
        ("duration", number(duration)),
    ])
}

fn tag(name: &str, direction: &str, from: u64, to: u64) -> JsonValue {
    object(vec![
        ("name", text(name)),
        ("direction", text(direction)),
        ("from", number(from)),
        ("to", number(to)),
    ])
}

fn sheet(frames: Vec<(&str, JsonValue)>, tags: Vec<JsonValue>) -> JsonValue {
    object(vec![
        ("frames", object(frames)),
        (
            "meta",
            object(vec![
                ("size", object(vec![("w", number(32)), ("h", number(8))])),
                ("frameTags", JsonValue::Array(tags)),
            ]),
        ),
    ])
}

fn texture_size() -> Size<UPixels> {
    Size::new(UPixels(32), UPixels(8))
}

fn load(json: &JsonValue) -> Result<Sprite<TextureRegion<u8>>, SpriteParseError> {
    Sprite::load_aseprite_json(json, 7u8, texture_size())
}

fn region_x(sprite: &Sprite<TextureRegion<u8>>) -> u32 {
    sprite.current_frame().unwrap().region.origin.x.0
}

#[test]
fn loads_frames_in_number_order() {
    let json = sheet(
        vec![
            ("walk 2.png", frame(16, 100)),
            ("walk_0.png", frame(0, 100)),
            ("walk_1.aseprite", frame(8, 50)),
        ],
        vec![tag("run", "forward", 1, 2)],
    );
    let mut sprite = load(&json).unwrap();
    assert_eq!(sprite.current_tag(), None);
    let current = sprite.current_frame().unwrap();
    assert_eq!(current.texture, 7);
    assert_eq!(
        current.region,
        Rect::new(
            Point::new(UPixels(0), UPixels(0)),
            Size::new(UPixels(8), UPixels(8))
        )
    );
    let untagged = sprite.animations.animation_for(&None).unwrap();
    let xs: Vec<u32> = untagged
        .frames
        .iter()
        .map(|f| f.source.region.origin.x.0)
        .collect();
    assert_eq!(xs, vec![0, 8, 16]);
    assert_eq!(
        untagged.frames[1].duration.unwrap().as_nanos(),
        Duration::from_millis(50).as_nanos()
    );

    sprite.set_current_tag(Some(String::from("run"))).unwrap();
    assert_eq!(region_x(&sprite), 8);
    assert_eq!(sprite.get_frame(Some(Duration::from_millis(51))).unwrap().region.origin.x.0, 16);
}

#[test]
fn tag_directions() {
    let json = sheet(
        vec![("a_0", frame(0, 10)), ("a_1", frame(8, 10))],
        vec![
            tag("fwd", "forward", 0, 1),
            tag("back", "reverse", 0, 1),
            tag("bounce", "pingpong", 0, 1),
        ],
    );
    let sprite = load(&json).unwrap();
    for name in ["fwd", "back", "bounce"] {
        let animation = sprite
            .animations
            .animation_for(&Some(String::from(name)))
            .unwrap();
        assert_eq!(animation.frames.len(), 2);
    }
    let back = sprite
        .animations
        .animation_for(&Some(String::from("back")))
        .unwrap();
    assert!(matches!(back.mode, kludgine::sprite::AnimationMode::Reverse));
}

#[test]
fn tag_with_non_string_name_is_skipped() {
    let json = sheet(
        vec![("a_0", frame(0, 10))],
        vec![object(vec![("name", number(3))])],
    );
    let sprite = load(&json).unwrap();
    assert!(sprite.animations.animation_for(&None).is_some());
}

#[test]
fn missing_meta() {
    let json = object(vec![("frames", object(vec![]))]);
    assert!(matches!(load(&json), Err(SpriteParseError::Meta)));
    let not_object = object(vec![("meta", number(1))]);
    assert!(matches!(load(&not_object), Err(SpriteParseError::Meta)));
}

#[test]
fn missing_size() {
    let json = object(vec![("meta", object(vec![]))]);
    assert!(matches!(load(&json), Err(SpriteParseError::SizeMissing)));
}

#[test]
fn size_mismatch() {
    let json = object(vec![(
        "meta",
        object(vec![(
            "size",
            object(vec![("w", number(31)), ("h", number(8))]),
        )]),
    )]);
    assert!(matches!(load(&json), Err(SpriteParseError::SizeMismatch)));
    let json = object(vec![(
        "meta",
        object(vec![(
            "size",
            object(vec![("w", number(32)), ("h", number(9))]),
        )]),
    )]);
    assert!(matches!(load(&json), Err(SpriteParseError::SizeMismatch)));
}

fn frame_error(key: &str, value: JsonValue) -> (String, FrameParseError) {
    match load(&sheet(vec![(key, value)], vec![])) {
        Err(SpriteParseError::Frame { key, error }) => (key, error),
        other => panic!("unexpected result {other:?}"),
    }
}

#[test]
fn frame_errors() {
    assert_eq!(
        frame_error("walk_x.png", frame(0, 1)),
        (String::from("walk_x.png"), FrameParseError::NotNumeric)
    );
    assert_eq!(
        frame_error("w_1", object(vec![("frame", number(0))])).1,
        FrameParseError::Duration
    );
    assert_eq!(
        frame_error("w_1", object(vec![("duration", number(5))])).1,
        FrameParseError::MissingRegion
    );
    let rect = |x: JsonValue, y: JsonValue, w: JsonValue, h: JsonValue| {
        object(vec![
            ("duration", number(5)),
            (
                "frame",
                object(vec![("x", x), ("y", y), ("w", w), ("h", h)]),
            ),
        ])
    };
    assert_eq!(
        frame_error("w_1", rect(text("0"), number(0), number(1), number(1))).1,
        FrameParseError::X
    );
    assert_eq!(
        frame_error("w_1", rect(number(0), number(1 << 40), number(1), number(1))).1,
        FrameParseError::Y
    );
    assert_eq!(
        frame_error("w_1", rect(number(0), number(0), JsonValue::Null, number(1))).1,
        FrameParseError::Width
    );
    assert_eq!(
        frame_error(
            "w_1",
            rect(number(0), number(0), number(1), JsonValue::Number(String::from("1.5")))
        )
        .1,
        FrameParseError::Height
    );
}

fn tag_error(tag_value: JsonValue) -> (String, FrameTagError) {
    match load(&sheet(vec![("a_0", frame(0, 1))], vec![tag_value])) {
        Err(SpriteParseError::FrameTag { name, error }) => (name, error),
        other => panic!("unexpected result {other:?}"),
    }
}

#[test]
fn frame_tag_errors() {
    assert_eq!(
        tag_error(object(vec![("name", text("t")), ("direction", number(1))])),
        (String::from("t"), FrameTagError::DirectionMissing)
    );
    assert_eq!(
        tag_error(tag("t", "sideways", 0, 0)).1,
        FrameTagError::DirectionUnknown
    );
    assert_eq!(
        tag_error(object(vec![
            ("name", text("t")),
            ("direction", text("forward")),
            ("from", text("0")),
        ]))
        .1,
        FrameTagError::From
    );
    assert_eq!(
        tag_error(object(vec![
            ("name", text("t")),
            ("direction", text("forward")),
            ("from", number(0)),
            ("to", JsonValue::Boolean(true)),
        ]))
        .1,
        FrameTagError::To
    );
    assert_eq!(
        tag_error(tag("t", "forward", 0, 1)).1,
        FrameTagError::InvalidFrame
    );
}

#[test]
fn empty_tag_range_has_no_frames() {
    let json = sheet(vec![("a_0", frame(0, 1))], vec![tag("none", "forward", 3, 1)]);
    let sprite = load(&json).unwrap();
    let animation = sprite
        .animations
        .animation_for(&Some(String::from("none")))
        .unwrap();
    assert!(animation.frames.is_empty());
}

#[test]
fn checked_loader_refuses_what_would_panic() {
    let missing_x = sheet(
        vec![(
            "a 0.png",
            object(vec![
                ("frame", object(vec![("y", number(0)), ("w", number(8)), ("h", number(8))])),
                ("duration", number(100)),
            ]),
        )],
        vec![],
    );
    assert!(Sprite::load_aseprite_json_checked(&missing_x, 7u8, texture_size()).is_none());
    let too_large = sheet(vec![("a 0.png", frame(1 << 30, 100))], vec![]);
    assert!(Sprite::load_aseprite_json_checked(&too_large, 7u8, texture_size()).is_none());
    let largest = sheet(vec![("a 0.png", frame((1 << 30) - 1, 100))], vec![]);
    assert!(Sprite::load_aseprite_json_checked(&largest, 7u8, texture_size()).is_some());
}

#[test]
fn loading_from_text_parses_first() {
    let bad = Sprite::load_aseprite_json_text("{\"frames\": ", 7u8, texture_size());
    assert!(matches!(bad, Some(Err(SpriteParseError::Json(_)))));
    let text = r#"{
        "frames": {
            "a 0.png": { "frame": { "x": 0, "y": 0, "w": 8, "h": 8 }, "duration": 100 },
            "a 1.png": { "frame": { "x": 8, "y": 0, "w": 8, "h": 8 }, "duration": 100 }
        },
        "meta": { "size": { "w": 32, "h": 8 }, "frameTags": [] }
    }"#;
    let sprite = Sprite::load_aseprite_json_text(text, 7u8, texture_size()).unwrap().unwrap();
    let untagged = sprite.animations.animation_for(&None).unwrap();
    assert_eq!(untagged.frames.len(), 2);
    assert_eq!(untagged.frames[1].source.region.origin.x.0, 8);
    let missing_meta = Sprite::load_aseprite_json_text(r#"{"frames": {}}"#, 7u8, texture_size());
    assert!(matches!(missing_meta, Some(Err(SpriteParseError::Meta))));
}

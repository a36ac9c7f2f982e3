use kludgine::frame::{plan_frame, unused_fonts, FrameBatch, FrameCommand, SceneElement};

fn describe(command: &FrameCommand) -> String {
    match command {
        FrameCommand::LoadTexture(t) => format!("load {t}"),
        FrameCommand::DrawBatch(batch) => format!("sprites {} {:?}", batch.texture, batch.sprites),
        FrameCommand::DrawShapes(batch) => format!("shapes {:?}", batch.shapes),
        FrameCommand::DrawText { text, font } => format!("text {text} {font}"),
    }
}

#[test]
fn batches_consecutive_elements() {
    let elements = vec![
        SceneElement::Sprite { texture: 1 },
        SceneElement::Sprite { texture: 1 },
        SceneElement::Sprite { texture: 2 },
        SceneElement::Shape,
        SceneElement::Shape,
        SceneElement::Text { font: 9 },
        SceneElement::Sprite { texture: 2 },
        SceneElement::Text { font: 9 },
        SceneElement::Shape,
    ];
    let loaded = vec![(1, true), (2, false), (5, true)];
    let plan = plan_frame(&elements, &loaded, &vec![9]);
    let described: Vec<String> = plan.commands.iter().map(describe).collect();
    assert_eq!(
        described,
        vec![
            "sprites 1 [0, 1]",
            "load 2",
            "sprites 2 [2]",
            "shapes [3, 4]",
            "text 5 9",
            "load 2",
            "sprites 2 [6]",
            "text 7 9",
            "shapes [8]",
        ]
    );
    assert_eq!(plan.dead_textures, vec![5]);
}

#[test]
fn new_textures_are_loaded() {
    let elements = vec![SceneElement::Sprite { texture: 3 }];
    let plan = plan_frame(&elements, &vec![], &vec![]);
    let described: Vec<String> = plan.commands.iter().map(describe).collect();
    assert_eq!(described, vec!["load 3", "sprites 3 [0]"]);
    assert!(plan.dead_textures.is_empty());
}

#[test]
fn empty_scene_plans_nothing() {
    let plan = plan_frame(&vec![], &vec![(4, true)], &vec![]);
    assert!(plan.commands.is_empty());
    assert_eq!(plan.dead_textures, vec![4]);
}

#[test]
fn frame_batch_accessors() {
    let mut sprites: FrameBatch<u8, u16> = FrameBatch::Sprite(1);
    assert!(sprites.is_sprite());
    assert!(!sprites.is_shape());
    *sprites.sprite_batch().unwrap() = 5;
    assert!(sprites.shape_batch().is_none());
    assert!(matches!(sprites, FrameBatch::Sprite(5)));
    let mut shapes: FrameBatch<u8, u16> = FrameBatch::Shape(2);
    assert!(shapes.is_shape());
    *shapes.shape_batch().unwrap() = 7;
    assert!(shapes.sprite_batch().is_none());
    assert!(matches!(shapes, FrameBatch::Shape(7)));
}

#[test]
fn fonts_no_text_uses_are_dropped() {
    let elements = vec![
        SceneElement::Text { font: 2 },
        SceneElement::Sprite { texture: 9 },
        SceneElement::Text { font: 5 },
        SceneElement::Shape,
    ];
    assert_eq!(unused_fonts(&elements, &vec![1, 2, 3, 5]), vec![1, 3]);
    assert_eq!(unused_fonts(&elements, &vec![2, 5]), Vec::<u64>::new());
    assert_eq!(unused_fonts(&Vec::new(), &vec![4]), vec![4]);
}

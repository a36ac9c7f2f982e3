use kludgine::sprite::{
    AnimationDirection, AnimationMode, InvalidSpriteTag, Sprite, SpriteAnimation, SpriteAnimations,
    SpriteFrame,
};
use kludgine::time::Duration;

fn frames(names: &[u32], millis: u64) -> Vec<SpriteFrame<u32>> {
    names
        .iter()
        .map(|name| SpriteFrame::new(*name).with_duration(Duration::from_millis(millis)))
        .collect()
}

fn sprite_with(mode: AnimationMode, names: &[u32]) -> Sprite<u32> {
    let animations = SpriteAnimations::new(vec![
        (None, SpriteAnimation::new(frames(&[100], 10))),
        (
            Some(String::from("walk")),
            SpriteAnimation::new(frames(names, 10)).with_mode(mode),
        ),
    ]);
    let mut sprite = Sprite::new(animations);
    sprite.set_current_tag(Some(String::from("walk"))).unwrap();
    sprite
}

fn step(sprite: &mut Sprite<u32>) -> u32 {
    sprite.get_frame(Some(Duration::from_millis(11))).unwrap()
}

#[test]
fn default_direction_by_mode() {
    assert_eq!(AnimationMode::Forward.default_direction(), AnimationDirection::Forward);
    assert_eq!(AnimationMode::PingPong.default_direction(), AnimationDirection::Forward);
    assert_eq!(AnimationMode::Reverse.default_direction(), AnimationDirection::Reverse);
}

#[test]
fn forward_animation_cycles() {
    let mut sprite = sprite_with(AnimationMode::Forward, &[1, 2, 3]);
    assert_eq!(sprite.current_frame().unwrap(), 1);
    let seen: Vec<u32> = (0..5).map(|_| step(&mut sprite)).collect();
    assert_eq!(seen, vec![2, 3, 1, 2, 3]);
}

#[test]
fn reverse_animation_cycles() {
    let mut sprite = sprite_with(AnimationMode::Reverse, &[1, 2, 3]);
    assert_eq!(sprite.current_frame().unwrap(), 1);
    let seen: Vec<u32> = (0..4).map(|_| step(&mut sprite)).collect();
    assert_eq!(seen, vec![3, 2, 1, 3]);
}

#[test]
fn ping_pong_animation_bounces() {
    let mut sprite = sprite_with(AnimationMode::PingPong, &[1, 2, 3]);
    let seen: Vec<u32> = (0..6).map(|_| step(&mut sprite)).collect();
    assert_eq!(seen, vec![2, 3, 2, 1, 2, 3]);
}

#[test]
fn frame_changes_only_after_its_duration() {
    let mut sprite = sprite_with(AnimationMode::Forward, &[1, 2]);
    assert_eq!(sprite.get_frame(Some(Duration::from_millis(4))).unwrap(), 1);
    assert_eq!(
        sprite.remaining_frame_duration().unwrap().unwrap().as_nanos(),
        6_000_000
    );
    assert_eq!(sprite.get_frame(Some(Duration::from_millis(6))).unwrap(), 1);
    assert_eq!(sprite.remaining_frame_duration().unwrap().unwrap().as_nanos(), 0);
    // 10ms + 13ms elapsed on 10ms frames: pass two frames, keep 3ms.
    assert_eq!(sprite.get_frame(Some(Duration::from_millis(13))).unwrap(), 1);
    assert_eq!(
        sprite.remaining_frame_duration().unwrap().unwrap().as_nanos(),
        7_000_000
    );
    // Reading without advancing changes nothing.
    assert_eq!(sprite.get_frame(None).unwrap(), 1);
}

#[test]
fn frame_without_duration_never_changes() {
    let animations = SpriteAnimations::new(vec![(
        None,
        SpriteAnimation::new(vec![SpriteFrame::new(7u32), SpriteFrame::new(8u32)]),
    )]);
    let mut sprite = Sprite::new(animations);
    assert_eq!(sprite.get_frame(Some(Duration::from_millis(1_000_000))).unwrap(), 7);
    assert!(sprite.remaining_frame_duration().unwrap().is_none());
}

#[test]
fn set_current_tag_behaviour() {
    let mut sprite = sprite_with(AnimationMode::Forward, &[1, 2, 3]);
    step(&mut sprite);
    assert_eq!(sprite.current_tag(), Some("walk"));
    // Setting the same tag keeps the frame.
    sprite.set_current_tag(Some(String::from("walk"))).unwrap();
    assert_eq!(sprite.current_frame().unwrap(), 2);
    // An unknown tag is refused and changes nothing.
    assert_eq!(
        sprite.set_current_tag(Some(String::from("run"))),
        Err(InvalidSpriteTag)
    );
    assert_eq!(sprite.current_tag(), Some("walk"));
    assert_eq!(sprite.current_frame().unwrap(), 2);
    // Switching restarts the new animation.
    sprite.set_current_tag(None::<String>).unwrap();
    assert_eq!(sprite.current_tag(), None);
    assert_eq!(sprite.current_frame().unwrap(), 100);
}

#[test]
fn missing_animation_is_an_error() {
    let sprite = Sprite::<u32>::new(SpriteAnimations::new(Vec::new()));
    assert_eq!(sprite.current_frame(), Err(InvalidSpriteTag));
    assert!(matches!(sprite.remaining_frame_duration(), Err(InvalidSpriteTag)));
}

#[test]
fn single_frame_sprite() {
    let mut sprite = Sprite::single_frame(42u32);
    assert_eq!(sprite.get_frame(Some(Duration::from_millis(5))).unwrap(), 42);
    assert_eq!(sprite.current_tag(), None);
}

#[test]
fn later_animations_replace_earlier_ones() {
    let animations = SpriteAnimations::new(vec![
        (Some(String::from("a")), SpriteAnimation::new(frames(&[1], 5))),
        (Some(String::from("a")), SpriteAnimation::new(frames(&[2], 5))),
    ]);
    let found = animations.animation_for(&Some(String::from("a"))).unwrap();
    assert_eq!(found.frames.len(), 1);
    assert_eq!(found.frames[0].source, 2);
    assert!(animations.animation_for(&None).is_none());
}

#[test]
fn merged_sprites_are_tagged_by_name() {
    let first = Sprite::single_frame(1u32);
    let second = Sprite::single_frame(2u32);
    let untagged_only = Sprite::<u32>::new(SpriteAnimations::new(vec![(
        Some(String::from("x")),
        SpriteAnimation::new(frames(&[9], 5)),
    )]));
    let mut merged = Sprite::merged(vec![
        (String::from("one"), first),
        (String::from("two"), second),
        (String::from("skipped"), untagged_only),
    ]);
    assert!(merged.animations.animation_for(&None).is_none());
    assert!(merged
        .animations
        .animation_for(&Some(String::from("skipped")))
        .is_none());
    merged.set_current_tag(Some(String::from("two"))).unwrap();
    assert_eq!(merged.current_frame().unwrap(), 2);
}

#[test]
fn elapsed_time_covers_several_frames() {
    let animations = SpriteAnimations::new(vec![(None, SpriteAnimation::new(frames(&[0, 16, 32], 100)))]);
    let mut sprite = Sprite::new(animations);
    assert_eq!(sprite.get_frame(Some(Duration::from_millis(250))).unwrap(), 32);
    assert_eq!(
        sprite.remaining_frame_duration().unwrap().unwrap().as_nanos(),
        Duration::from_millis(50).as_nanos()
    );
}

#[test]
fn single_frame_ping_pong_stays() {
    let animations = SpriteAnimations::new(vec![(
        None,
        SpriteAnimation::new(frames(&[5], 100)).with_mode(AnimationMode::PingPong),
    )]);
    let mut sprite = Sprite::new(animations);
    assert_eq!(sprite.get_frame(Some(Duration::from_millis(150))).unwrap(), 5);
    assert_eq!(sprite.get_frame(Some(Duration::from_millis(450))).unwrap(), 5);
}

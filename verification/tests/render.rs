use kludgine::clip::{ClipRect, ClipStack, UPxRect, UPxSize};
use kludgine::render::{
    draw_flags, plan_render, DrawCommand, FlagBits, DrawConstants, DrawVertex, Drawing, PxRect, RenderStep, TextureBlit,
    VertexCollection,
};
use kludgine::sealed::TextureId;

fn vertex(x: i32, y: i32) -> DrawVertex {
    DrawVertex { x, y, texture_x: 0, texture_y: 0, color: 0xFFFF_FFFF }
}

fn constants(flags: u32) -> DrawConstants {
    DrawConstants {
        flags,
        scale: 1.0_f32.to_bits(),
        rotation: 0.0_f32.to_bits(),
        opacity: 1.0_f32.to_bits(),
        translation_x: 0,
        translation_y: 0,
    }
}

fn quad() -> Vec<DrawVertex> {
    vec![vertex(0, 0), vertex(10, 0), vertex(10, 10), vertex(0, 10)]
}

fn frame() -> Drawing {
    let mut drawing = Drawing::new();
    drawing.new_frame(ClipRect(UPxRect { x: 0, y: 0, width: 400, height: 400 }));
    drawing
}

#[test]
fn recording_a_quad() {
    let mut drawing = frame();
    drawing.record(&quad(), &vec![0, 1, 2, 2, 3, 0], 0, None, constants(0));
    assert_eq!(drawing.vertices(), &quad());
    assert_eq!(drawing.indices(), &vec![0, 1, 2, 2, 3, 0]);
    assert_eq!(
        drawing.commands(),
        &vec![DrawCommand { clip_index: 0, start: 0, end: 6, constants: constants(0), texture: None }]
    );
    assert_eq!(drawing.vertex_count(), 4);
    assert_eq!(drawing.triangle_count(), 2);
    assert_eq!(drawing.command_count(), 1);
}

#[test]
fn repeated_draws_share_vertices_and_batch() {
    let mut drawing = frame();
    drawing.record(&quad(), &vec![0, 1, 2, 2, 3, 0], 0, None, constants(0));
    drawing.record(&quad(), &vec![0, 1, 2, 2, 3, 0], 0, None, constants(0));
    assert_eq!(drawing.vertex_count(), 4);
    assert_eq!(drawing.triangle_count(), 4);
    assert_eq!(drawing.command_count(), 1);
    assert_eq!(drawing.commands()[0].end, 12);
}

#[test]
fn a_different_texture_starts_a_command() {
    let mut drawing = frame();
    drawing.record(&quad(), &vec![0, 1, 2], 0, None, constants(0));
    drawing.record(&quad(), &vec![0, 2, 3], 0, Some(TextureId(3)), constants(0));
    drawing.record(&quad(), &vec![1, 2, 3], 1, Some(TextureId(3)), constants(0));
    drawing.record(&quad(), &vec![1, 2, 3], 1, Some(TextureId(3)), constants(4));
    let commands = drawing.commands();
    assert_eq!(commands.len(), 4);
    assert_eq!((commands[1].start, commands[1].end), (3, 6));
    assert_eq!(commands[1].texture, Some(TextureId(3)));
    assert_eq!((commands[2].clip_index, commands[2].start, commands[2].end), (1, 6, 9));
    assert_eq!((commands[3].constants.flags, commands[3].start, commands[3].end), (4, 9, 12));
}

#[test]
fn new_vertices_are_appended_and_indices_remapped() {
    let mut drawing = frame();
    drawing.record(&quad(), &vec![0, 1, 2], 0, None, constants(0));
    drawing.record(&vec![vertex(10, 10), vertex(20, 20), vertex(10, 10)], &vec![0, 1, 2], 0, None, constants(0));
    assert_eq!(drawing.vertex_count(), 5);
    assert_eq!(drawing.vertices()[4], vertex(20, 20));
    assert_eq!(drawing.indices(), &vec![0, 1, 2, 2, 4, 2]);
}

#[test]
fn clips_are_numbered_once() {
    let mut drawing = frame();
    let surface = ClipRect(UPxRect { x: 0, y: 0, width: 400, height: 400 });
    let inner = ClipRect(UPxRect { x: 4, y: 4, width: 8, height: 8 });
    assert_eq!(drawing.get_or_lookup_clip(surface), 0);
    assert_eq!(drawing.get_or_lookup_clip(inner), 1);
    assert_eq!(drawing.get_or_lookup_clip(inner), 1);
    assert_eq!(drawing.clips().len(), 2);
    drawing.new_frame(inner);
    assert_eq!(drawing.clips(), &vec![inner.0]);
    assert_eq!(drawing.vertex_count(), 0);
}

#[test]
fn vertex_collection_holds_each_once() {
    let mut collection = VertexCollection::new();
    assert_eq!(collection.get_or_insert(vertex(1, 2)), 0);
    assert_eq!(collection.get_or_insert(vertex(3, 4)), 1);
    assert_eq!(collection.get_or_insert(vertex(1, 2)), 0);
    assert_eq!(collection.vertices().len(), 2);
}

fn command(clip_index: u32, start: u32, end: u32, texture: Option<TextureId>, x: i32) -> DrawCommand {
    let mut constants = constants(0);
    constants.translation_x = x;
    DrawCommand { clip_index, start, end, constants, texture }
}

fn translated(flags: u32, x: i32, y: i32) -> DrawConstants {
    let mut constants = constants(flags);
    constants.translation_x = x;
    constants.translation_y = y;
    constants
}

#[test]
fn planning_a_render_binds_clips_and_draws() {
    let clips = vec![
        UPxRect { x: 0, y: 0, width: 400, height: 400 },
        UPxRect { x: 4, y: 4, width: 8, height: 8 },
        UPxRect { x: 0, y: 0, width: 0, height: 0 },
    ];
    let commands = vec![
        command(0, 0, 6, None, 0),
        command(1, 6, 12, Some(TextureId(7)), 1),
        command(1, 12, 15, Some(TextureId(7)), 0),
        command(2, 15, 18, Some(TextureId(7)), 0),
        command(2, 18, 21, None, 0),
    ];
    let steps = plan_render(&commands, &clips, clips[0], true, 8);
    assert_eq!(
        steps,
        vec![
            RenderStep::BindDefault,
            RenderStep::Draw { start: 0, end: 6, constants: translated(0, 0, 0) },
            RenderStep::BindTexture(TextureId(7)),
            RenderStep::Scissor { x: 1, y: 1, width: 2, height: 2 },
            RenderStep::Draw { start: 6, end: 12, constants: translated(8, 5, 4) },
            RenderStep::Draw { start: 12, end: 15, constants: translated(8, 4, 4) },
            RenderStep::Draw { start: 18, end: 21, constants: translated(0, 0, 0) },
        ]
    );
}

#[test]
fn planning_without_owed_binding_binds_only_textures() {
    let clips = vec![UPxRect { x: 0, y: 0, width: 40, height: 40 }];
    let commands = vec![command(0, 0, 3, None, 0), command(0, 3, 6, Some(TextureId(1)), 0)];
    let steps = plan_render(&commands, &clips, clips[0], false, 8);
    assert_eq!(
        steps,
        vec![
            RenderStep::Draw { start: 0, end: 3, constants: translated(0, 0, 0) },
            RenderStep::BindTexture(TextureId(1)),
            RenderStep::Draw { start: 3, end: 6, constants: translated(0, 0, 0) },
        ]
    );
}

fn textured(x: i32, y: i32, texture_x: u32, texture_y: u32) -> DrawVertex {
    DrawVertex { x, y, texture_x, texture_y, color: 7 }
}

#[test]
fn blit_corners_follow_extents() {
    let source = UPxRect { x: 8, y: 4, width: 16, height: 12 };
    let blit = TextureBlit::new(source, PxRect { x: 10, y: 20, width: 30, height: 40 }, 7);
    assert_eq!(
        blit.vertices(),
        vec![
            textured(10, 20, 8, 4),
            textured(40, 20, 24, 4),
            textured(10, 60, 8, 16),
            textured(40, 60, 24, 16),
        ]
    );
    assert_eq!(TextureBlit::indices(), vec![1, 0, 2, 1, 2, 3]);
    let flipped = TextureBlit::new(source, PxRect { x: 40, y: 60, width: -30, height: -40 }, 7);
    assert_eq!(flipped.top_left(), textured(10, 20, 8, 4));
    assert_eq!(flipped.bottom_right(), textured(40, 60, 24, 16));
}

#[test]
fn blit_translates_and_records() {
    let source = UPxRect { x: 0, y: 0, width: 4, height: 4 };
    let mut blit = TextureBlit::new(source, PxRect { x: 0, y: 0, width: 2, height: 2 }, 7);
    blit.translate_by(5, -1);
    assert_eq!(blit.top_left(), textured(5, -1, 0, 0));
    assert_eq!(blit.bottom_right(), textured(7, 1, 4, 4));
    let mut drawing = frame();
    drawing.record(&blit.vertices(), &TextureBlit::indices(), 0, Some(TextureId(2)), constants(1));
    assert_eq!(drawing.vertex_count(), 4);
    assert_eq!(drawing.indices(), &vec![1, 0, 2, 1, 2, 3]);
    assert_eq!(drawing.commands()[0].texture, Some(TextureId(2)));
}

#[test]
fn clips_pushed_while_drawing_are_numbered() {
    let mut stack = ClipStack::new(UPxSize { width: 400, height: 400 });
    let mut drawing = Drawing::new();
    drawing.new_frame(stack.current());
    assert_eq!(drawing.push_clip(&mut stack, UPxRect { x: 4, y: 4, width: 8, height: 8 }), 1);
    assert_eq!(drawing.clips()[1], UPxRect { x: 4, y: 4, width: 8, height: 8 });
    assert_eq!(drawing.pop_clip(&mut stack), 0);
    assert_eq!(drawing.push_clip(&mut stack, UPxRect { x: 4, y: 4, width: 8, height: 8 }), 1);
    assert_eq!(drawing.clips().len(), 2);
}

#[test]
fn draw_flags_mark_what_the_shader_does() {
    let bits = FlagBits { textured: 1, masked: 2, scale: 4, rotate: 8, translate: 16 };
    assert_eq!(draw_flags(32, bits, false, None, false, false, 0, 0), 32);
    assert_eq!(draw_flags(0, bits, true, Some(false), false, false, 0, 0), 1);
    assert_eq!(draw_flags(0, bits, true, Some(true), true, false, 0, 0), 7);
    assert_eq!(draw_flags(0, bits, false, None, false, true, 0, -3), 24);
}

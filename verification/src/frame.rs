//! Batches of draw commands collected while building a frame.

use vstd::prelude::*;

verus! {

/// A batch of consecutive draw commands of one kind: sprites drawn from one
/// texture, or shapes.
pub enum FrameBatch<Sprites, Shapes> {
    Sprite(Sprites),
    Shape(Shapes),
}

impl<Sprites, Shapes> FrameBatch<Sprites, Shapes> {
    /// Whether this batch holds shapes.
    pub fn is_shape(&self) -> (r: bool)
        ensures
            r == (self is Shape),
    {
        if let FrameBatch::Shape(_) = self {
            true
        } else {
            false
        }
    }

    /// Whether this batch holds sprites.
    pub fn is_sprite(&self) -> (r: bool)
        ensures
            r == (self is Sprite),
    {
        !self.is_shape()
    }

    /// The sprites of this batch, if it holds sprites.
    pub fn sprite_batch(&mut self) -> (r: Option<&mut Sprites>)
        ensures
            (*old(self) is Sprite) == (r is Some),
            r matches Some(b) ==> *b == (*old(self))->Sprite_0 && *final(self) == FrameBatch::<Sprites, Shapes>::Sprite(*final(b)),
            r is None ==> *final(self) == *old(self),
    {
        if let FrameBatch::Sprite(batch) = self {
            Some(batch)
        } else {
            None
        }
    }

    /// The shapes of this batch, if it holds shapes.
    pub fn shape_batch(&mut self) -> (r: Option<&mut Shapes>)
        ensures
            (*old(self) is Shape) == (r is Some),
            r matches Some(b) ==> *b == (*old(self))->Shape_0 && *final(self) == FrameBatch::<Sprites, Shapes>::Shape(*final(b)),
            r is None ==> *final(self) == *old(self),
    {
        if let FrameBatch::Shape(batch) = self {
            Some(batch)
        } else {
            None
        }
    }
}

/// What planning a frame needs to know of one element of the scene.
#[derive(Clone, Copy, Debug, PartialEq, Eq, Structural)]
pub enum SceneElement {
    /// A sprite drawn from the texture with this identifier.
    Sprite { texture: u64 },
    /// Text drawn in the font with this identifier.
    Text { font: u64 },
    /// A shape.
    Shape,
}

/// Consecutive sprites drawn from one texture, by their index in the scene.
#[derive(Debug)]
pub struct SpriteBatch {
    /// The texture the sprites are drawn from.
    pub texture: u64,
    /// The sprites, by index in the scene.
    pub sprites: Vec<usize>,
}

/// Consecutive shapes, by their index in the scene.
#[derive(Debug)]
pub struct ShapeBatch {
    /// The shapes, by index in the scene.
    pub shapes: Vec<usize>,
}

/// One step of rendering a frame.
#[derive(Debug)]
pub enum FrameCommand {
    /// Upload the texture with this identifier.
    LoadTexture(u64),
    /// Draw a batch of sprites.
    DrawBatch(SpriteBatch),
    /// Draw a batch of shapes.
    DrawShapes(ShapeBatch),
    /// Draw the text at index `text` of the scene in the font `font`.
    DrawText { text: usize, font: u64 },
}

/// A frame command, with its lists as sequences.
pub enum CommandView {
    LoadTexture(u64),
    DrawBatch(u64, Seq<usize>),
    DrawShapes(Seq<usize>),
    DrawText(usize, u64),
}

impl View for FrameCommand {
    type V = CommandView;

    open spec fn view(&self) -> CommandView {
        match self {
            FrameCommand::LoadTexture(t) => CommandView::LoadTexture(*t),
            FrameCommand::DrawBatch(b) => CommandView::DrawBatch(b.texture, b.sprites@),
            FrameCommand::DrawShapes(b) => CommandView::DrawShapes(b.shapes@),
            FrameCommand::DrawText { text, font } => CommandView::DrawText(*text, *font),
        }
    }
}

/// The batch still being filled while a frame is planned.
pub enum OpenBatch {
    Sprites(u64, Seq<usize>),
    Shapes(Seq<usize>),
}

/// The view of a batch being filled.
pub open spec fn open_batch_view(batch: Option<FrameBatch<SpriteBatch, ShapeBatch>>) -> Option<OpenBatch> {
    match batch {
        Some(FrameBatch::Sprite(b)) => Some(OpenBatch::Sprites(b.texture, b.sprites@)),
        Some(FrameBatch::Shape(b)) => Some(OpenBatch::Shapes(b.shapes@)),
        None => None,
    }
}

/// Whether the texture `texture` has to be uploaded before it is drawn: it is
/// not among the `loaded` textures already bound for drawing.
pub open spec fn needs_load(texture: u64, loaded: Seq<(u64, bool)>) -> bool {
    !exists|i: int| 0 <= i < loaded.len() && loaded[i].0 == texture && loaded[i].1
}

/// `commands` followed by the command that draws `open`, if any.
pub open spec fn commit(commands: Seq<CommandView>, open: Option<OpenBatch>) -> Seq<CommandView> {
    match open {
        None => commands,
        Some(OpenBatch::Sprites(texture, sprites)) => commands.push(CommandView::DrawBatch(texture, sprites)),
        Some(OpenBatch::Shapes(shapes)) => commands.push(CommandView::DrawShapes(shapes)),
    }
}

/// The commands and the batch being filled after element `index`, `element`,
/// is added to `commands` and `open`. A sprite joins the open batch when
/// that batch draws from the same texture, and otherwise starts a new batch,
/// uploading its texture first where needed; a shape joins an open batch of
/// shapes or starts one; text closes the open batch and is drawn on its own.
pub open spec fn plan_step(
    commands: Seq<CommandView>,
    open: Option<OpenBatch>,
    index: usize,
    element: SceneElement,
    loaded: Seq<(u64, bool)>,
) -> (Seq<CommandView>, Option<OpenBatch>) {
    match element {
        SceneElement::Sprite { texture } => match open {
            Some(OpenBatch::Sprites(t, sprites)) if t == texture => (
                commands,
                Some(OpenBatch::Sprites(t, sprites.push(index))),
            ),
            _ => {
                let committed = commit(commands, open);
                let prepared = if needs_load(texture, loaded) {
                    committed.push(CommandView::LoadTexture(texture))
                } else {
                    committed
                };
                (prepared, Some(OpenBatch::Sprites(texture, seq![index])))
            },
        },
        SceneElement::Text { font } => (commit(commands, open).push(CommandView::DrawText(index, font)), None),
        SceneElement::Shape => match open {
            Some(OpenBatch::Shapes(shapes)) => (commands, Some(OpenBatch::Shapes(shapes.push(index)))),
            _ => (commit(commands, open), Some(OpenBatch::Shapes(seq![index]))),
        },
    }
}

/// The commands and open batch after planning `elements` in order.
pub open spec fn plan_state(elements: Seq<SceneElement>, loaded: Seq<(u64, bool)>) -> (
    Seq<CommandView>,
    Option<OpenBatch>,
)
    decreases elements.len(),
{
    if elements.len() == 0 {
        (Seq::empty(), None)
    } else {
        let (commands, open) = plan_state(elements.drop_last(), loaded);
        plan_step(commands, open, (elements.len() - 1) as usize, elements.last(), loaded)
    }
}

/// The commands that render `elements`.
pub open spec fn planned_commands(elements: Seq<SceneElement>, loaded: Seq<(u64, bool)>) -> Seq<
    CommandView,
> {
    let (commands, open) = plan_state(elements, loaded);
    commit(commands, open)
}

/// Whether a sprite in `elements` is drawn from `texture`.
pub open spec fn texture_used(elements: Seq<SceneElement>, texture: u64) -> bool {
    exists|i: int| 0 <= i < elements.len() && elements[i] == (SceneElement::Sprite { texture })
}

/// The plan for rendering one frame.
#[derive(Debug)]
pub struct FramePlan {
    /// The commands, in order.
    pub commands: Vec<FrameCommand>,
    /// The loaded textures that no sprite of the frame uses any more.
    pub dead_textures: Vec<u64>,
}

/// Whether `texture` is in `list`.
fn contains_id(list: &Vec<u64>, texture: u64) -> (r: bool)
    ensures
        r == list@.contains(texture),
{
    let n = list.len();
    let mut i: usize = 0;
    while i < n
        invariant
            n == list@.len(),
            i <= n,
            forall|j: int| 0 <= j < i ==> list@[j] != texture,
        decreases n - i,
    {
        if list[i] == texture {
            return true;
        }
        i = i + 1;
    }
    false
}

/// Whether `texture` is among the `loaded` textures already bound.
fn is_bound(loaded: &Vec<(u64, bool)>, texture: u64) -> (r: bool)
    ensures
        r == !needs_load(texture, loaded@),
{
    let n = loaded.len();
    let mut i: usize = 0;
    while i < n
        invariant
            n == loaded@.len(),
            i <= n,
            forall|j: int| 0 <= j < i ==> !(loaded@[j].0 == texture && loaded@[j].1),
        decreases n - i,
    {
        if loaded[i].0 == texture && loaded[i].1 {
            return true;
        }
        i = i + 1;
    }
    false
}

/// Closes `batch`, appending the command that draws it to `commands`.
fn commit_batch(commands: &mut Vec<FrameCommand>, batch: Option<FrameBatch<SpriteBatch, ShapeBatch>>)
    ensures
        final(commands)@.map_values(|c: FrameCommand| c@) == commit(
            old(commands)@.map_values(|c: FrameCommand| c@),
            open_batch_view(batch),
        ),
{
    let ghost before = commands@;
    match batch {
        Some(FrameBatch::Sprite(batch)) => commands.push(FrameCommand::DrawBatch(batch)),
        Some(FrameBatch::Shape(batch)) => commands.push(FrameCommand::DrawShapes(batch)),
        None => {},
    }
    assert(commands@.map_values(|c: FrameCommand| c@) =~= commit(
        before.map_values(|c: FrameCommand| c@),
        open_batch_view(batch),
    ));
}

/// Plans the commands that render the scene `elements`, given the textures
/// `loaded` so far (each with whether it is bound for drawing) and the
/// `fonts` whose glyphs are cached. Consecutive sprites from one texture
/// share a batch, as do consecutive shapes; text is drawn on its own. The
/// plan also lists the loaded textures that no sprite uses any more.
pub fn plan_frame(elements: &Vec<SceneElement>, loaded: &Vec<(u64, bool)>, fonts: &Vec<u64>) -> (r:
    FramePlan)
    requires
        forall|i: int|
            0 <= i < elements@.len() ==> (#[trigger] elements@[i] matches SceneElement::Text { font }
                ==> fonts@.contains(font)),
    ensures
        r.commands@.map_values(|c: FrameCommand| c@) == planned_commands(elements@, loaded@),
        forall|t: u64|
            #[trigger] r.dead_textures@.contains(t) <==> (exists|i: int|
                0 <= i < loaded@.len() && loaded@[i].0 == t) && !texture_used(elements@, t),
{
    let mut commands: Vec<FrameCommand> = Vec::new();
    let mut referenced: Vec<u64> = Vec::new();
    let mut current_texture_id: Option<u64> = None;
    let mut current_batch: Option<FrameBatch<SpriteBatch, ShapeBatch>> = None;
    let n = elements.len();
    let mut i: usize = 0;
    while i < n
        invariant
            n == elements@.len(),
            i <= n,
            forall|k: int|
                0 <= k < elements@.len() ==> (#[trigger] elements@[k] matches SceneElement::Text { font }
                    ==> fonts@.contains(font)),
            (commands@.map_values(|c: FrameCommand| c@), open_batch_view(current_batch)) == plan_state(
                elements@.take(i as int),
                loaded@,
            ),
            current_batch matches Some(FrameBatch::Sprite(b)) ==> current_texture_id == Some(b.texture),
            current_texture_id matches Some(t) ==> referenced@.contains(t),
            forall|t: u64| #[trigger] referenced@.contains(t) <==> texture_used(elements@.take(i as int), t),
        decreases n - i,
    {
        let ghost prefix = elements@.take(i + 1);
        assert(prefix.drop_last() =~= elements@.take(i as int));
        assert(prefix.last() == elements@[i as int]);
        let ghost before_cmds = commands@.map_values(|c: FrameCommand| c@);
        let ghost before_open = open_batch_view(current_batch);
        let ghost old_ref = referenced@;
        match elements[i] {
            SceneElement::Sprite { texture } => {
                let continues = match &current_batch {
                    Some(batch) => batch.is_sprite() && match current_texture_id {
                        Some(t) => t == texture,
                        None => false,
                    },
                    None => false,
                };
                if !continues {
                    let previous = current_batch.take();
                    commit_batch(&mut commands, previous);
                    current_texture_id = Some(texture);
                    if !contains_id(&referenced, texture) {
                        referenced.push(texture);
                        assert(referenced@[referenced@.len() - 1] == texture);
                    }
                    if !is_bound(loaded, texture) {
                        commands.push(FrameCommand::LoadTexture(texture));
                    }
                    let mut sprites = Vec::new();
                    sprites.push(i);
                    current_batch = Some(FrameBatch::Sprite(SpriteBatch { texture, sprites }));
                    proof {
                        let c = commit(before_cmds, before_open);
                        if needs_load(texture, loaded@) {
                            assert(commands@.map_values(|c: FrameCommand| c@) =~= c.push(
                                CommandView::LoadTexture(texture),
                            ));
                        } else {
                            assert(commands@.map_values(|c: FrameCommand| c@) =~= c);
                        }
                        assert(sprites@ =~= seq![i]);
                    }
                } else {
                    let mut batch = current_batch.take().unwrap();
                    match batch.sprite_batch() {
                        Some(sprite_batch) => sprite_batch.sprites.push(i),
                        None => {},
                    }
                    current_batch = Some(batch);
                }
                proof {
                    assert(referenced@.contains(texture));
                    assert(referenced@ == old_ref || referenced@ == old_ref.push(texture));
                    assert forall|t: u64| #[trigger] referenced@.contains(t) <==> texture_used(prefix, t) by {
                        if referenced@.contains(t) && t != texture {
                            let j = choose|j: int| 0 <= j < referenced@.len() && referenced@[j] == t;
                            if j < old_ref.len() {
                                assert(old_ref[j] == t);
                            }
                            assert(old_ref.contains(t));
                        }
                        if old_ref.contains(t) {
                            let j = choose|j: int| 0 <= j < old_ref.len() && old_ref[j] == t;
                            assert(referenced@[j] == t);
                        }
                        if texture_used(prefix, t) {
                            let k = choose|k: int| 0 <= k < prefix.len() && prefix[k] == (SceneElement::Sprite { texture: t });
                            if k < i {
                                assert(elements@.take(i as int)[k] == prefix[k]);
                                assert(texture_used(elements@.take(i as int), t));
                            }
                        }
                        if texture_used(elements@.take(i as int), t) {
                            let k = choose|k: int| 0 <= k < i && elements@.take(i as int)[k] == (SceneElement::Sprite { texture: t });
                            assert(prefix[k] == elements@.take(i as int)[k]);
                        }
                        if t == texture {
                            assert(prefix[i as int] == (SceneElement::Sprite { texture: t }));
                        }
                    }
                }
            },
            SceneElement::Text { font } => {
                assert(elements@[i as int] matches SceneElement::Text { font: f } ==> fonts@.contains(f));
                let previous = current_batch.take();
                commit_batch(&mut commands, previous);
                commands.push(FrameCommand::DrawText { text: i, font });
                proof {
                    assert(commands@.map_values(|c: FrameCommand| c@) =~= commit(before_cmds, before_open).push(
                        CommandView::DrawText(i, font),
                    ));
                    assert forall|t: u64| #[trigger] referenced@.contains(t) <==> texture_used(prefix, t) by {
                        if texture_used(prefix, t) {
                            let k = choose|k: int| 0 <= k < prefix.len() && prefix[k] == (SceneElement::Sprite { texture: t });
                            assert(elements@.take(i as int)[k] == prefix[k]);
                        }
                        if texture_used(elements@.take(i as int), t) {
                            let k = choose|k: int| 0 <= k < i && elements@.take(i as int)[k] == (SceneElement::Sprite { texture: t });
                            assert(prefix[k] == elements@.take(i as int)[k]);
                        }
                    }
                }
            },
            SceneElement::Shape => {
                let open_shapes = match &current_batch {
                    Some(batch) => batch.is_shape(),
                    None => false,
                };
                if open_shapes {
                    let mut batch = current_batch.take().unwrap();
                    match batch.shape_batch() {
                        Some(shape_batch) => shape_batch.shapes.push(i),
                        None => {},
                    }
                    current_batch = Some(batch);
                } else {
                    let previous = current_batch.take();
                    commit_batch(&mut commands, previous);
                    let mut shapes = Vec::new();
                    shapes.push(i);
                    current_batch = Some(FrameBatch::Shape(ShapeBatch { shapes }));
                    assert(shapes@ =~= seq![i]);
                }
                proof {
                    assert forall|t: u64| #[trigger] referenced@.contains(t) <==> texture_used(prefix, t) by {
                        if texture_used(prefix, t) {
                            let k = choose|k: int| 0 <= k < prefix.len() && prefix[k] == (SceneElement::Sprite { texture: t });
                            assert(elements@.take(i as int)[k] == prefix[k]);
                        }
                        if texture_used(elements@.take(i as int), t) {
                            let k = choose|k: int| 0 <= k < i && elements@.take(i as int)[k] == (SceneElement::Sprite { texture: t });
                            assert(prefix[k] == elements@.take(i as int)[k]);
                        }
                    }
                }
            },
        }
        i = i + 1;
    }
    commit_batch(&mut commands, current_batch);
    assert(elements@.take(n as int) =~= elements@);

    let mut dead_textures: Vec<u64> = Vec::new();
    let m = loaded.len();
    let mut k: usize = 0;
    while k < m
        invariant
            m == loaded@.len(),
            k <= m,
            forall|t: u64| #[trigger] referenced@.contains(t) <==> texture_used(elements@, t),
            forall|t: u64|
                #[trigger] dead_textures@.contains(t) <==> (exists|j: int|
                    0 <= j < k && loaded@[j].0 == t) && !texture_used(elements@, t),
        decreases m - k,
    {
        let texture = loaded[k].0;
        let ghost before = dead_textures@;
        if !contains_id(&referenced, texture) {
            dead_textures.push(texture);
        }
        proof {
            assert forall|t: u64|
                #[trigger] dead_textures@.contains(t) <==> (exists|j: int|
                    0 <= j < k + 1 && loaded@[j].0 == t) && !texture_used(elements@, t) by {
                if dead_textures@.contains(t) && !before.contains(t) {
                    assert(dead_textures@.last() == t);
                    assert(loaded@[k as int].0 == t);
                }
                if before.contains(t) {
                    let j = choose|j: int| 0 <= j < before.len() && before[j] == t;
                    assert(dead_textures@[j] == t);
                }
                if (exists|j: int| 0 <= j < k + 1 && loaded@[j].0 == t) && !texture_used(elements@, t) {
                    let j = choose|j: int| 0 <= j < k + 1 && loaded@[j].0 == t;
                    if j == k {
                        assert(dead_textures@.last() == t);
                    }
                }
            }
        }
        k = k + 1;
    }
    FramePlan { commands, dead_textures }
}

/// The scene indices that `command` draws.
pub open spec fn command_indices(command: CommandView) -> Seq<usize> {
    match command {
        CommandView::LoadTexture(_) => Seq::empty(),
        CommandView::DrawBatch(_, sprites) => sprites,
        CommandView::DrawShapes(shapes) => shapes,
        CommandView::DrawText(text, _) => seq![text],
    }
}

/// The scene indices that `commands` draw, in order.
pub open spec fn drawn(commands: Seq<CommandView>) -> Seq<usize>
    decreases commands.len(),
{
    if commands.len() == 0 {
        Seq::empty()
    } else {
        drawn(commands.drop_last()) + command_indices(commands.last())
    }
}

/// The scene indices in an open batch.
pub open spec fn open_indices(open: Option<OpenBatch>) -> Seq<usize> {
    match open {
        None => Seq::empty(),
        Some(OpenBatch::Sprites(_, sprites)) => sprites,
        Some(OpenBatch::Shapes(shapes)) => shapes,
    }
}

/// Whether `command` draws elements of `elements` of the kind it is for: a
/// sprite batch only sprites of its texture, a shape batch only shapes, each
/// batch at least one element, and a text command a text in its font.
pub open spec fn command_fits(command: CommandView, elements: Seq<SceneElement>) -> bool {
    match command {
        CommandView::LoadTexture(_) => true,
        CommandView::DrawBatch(texture, sprites) => sprites.len() > 0 && forall|j: int|
            0 <= j < sprites.len() ==> #[trigger] sprites[j] < elements.len() && elements[sprites[j] as int]
                == (SceneElement::Sprite { texture }),
        CommandView::DrawShapes(shapes) => shapes.len() > 0 && forall|j: int|
            0 <= j < shapes.len() ==> #[trigger] shapes[j] < elements.len() && elements[shapes[j] as int]
                == SceneElement::Shape,
        CommandView::DrawText(text, font) => text < elements.len() && elements[text as int] == (
        SceneElement::Text { font }),
    }
}

/// Whether an open batch holds elements of `elements` of its kind.
pub open spec fn open_fits(open: Option<OpenBatch>, elements: Seq<SceneElement>) -> bool {
    match open {
        None => true,
        Some(OpenBatch::Sprites(texture, sprites)) => command_fits(CommandView::DrawBatch(texture, sprites), elements),
        Some(OpenBatch::Shapes(shapes)) => command_fits(CommandView::DrawShapes(shapes), elements),
    }
}

proof fn lemma_drawn_push(commands: Seq<CommandView>, command: CommandView)
    ensures
        drawn(commands.push(command)) == drawn(commands) + command_indices(command),
{
    assert(commands.push(command).drop_last() =~= commands);
}

proof fn lemma_drawn_commit(commands: Seq<CommandView>, open: Option<OpenBatch>)
    ensures
        drawn(commit(commands, open)) == drawn(commands) + open_indices(open),
{
    match open {
        None => assert(drawn(commands) + open_indices(open) =~= drawn(commands)),
        Some(OpenBatch::Sprites(texture, sprites)) => lemma_drawn_push(
            commands,
            CommandView::DrawBatch(texture, sprites),
        ),
        Some(OpenBatch::Shapes(shapes)) => lemma_drawn_push(commands, CommandView::DrawShapes(shapes)),
    }
}

/// The first `n` elements planned so far are drawn, or waiting in the open
/// batch, in order and each by a command of the right kind.
proof fn lemma_plan_state(elements: Seq<SceneElement>, loaded: Seq<(u64, bool)>, n: int)
    requires
        0 <= n <= elements.len(),
        elements.len() <= usize::MAX,
    ensures
        drawn(plan_state(elements.take(n), loaded).0) + open_indices(plan_state(elements.take(n), loaded).1)
            == Seq::new(n as nat, |i: int| i as usize),
        forall|k: int|
            0 <= k < plan_state(elements.take(n), loaded).0.len() ==> command_fits(
                #[trigger] plan_state(elements.take(n), loaded).0[k],
                elements,
            ),
        open_fits(plan_state(elements.take(n), loaded).1, elements),
    decreases n,
{
    if n == 0 {
        assert(elements.take(0).len() == 0);
        assert(drawn(Seq::<CommandView>::empty()) + open_indices(None) =~= Seq::new(0, |i: int| i as usize));
    } else {
        lemma_plan_state(elements, loaded, n - 1);
        let prefix = elements.take(n);
        assert(prefix.drop_last() =~= elements.take(n - 1));
        assert(prefix.last() == elements[n - 1]);
        let (c, o) = plan_state(elements.take(n - 1), loaded);
        let idx = (n - 1) as usize;
        let target = Seq::new(n as nat, |i: int| i as usize);
        let earlier = Seq::new((n - 1) as nat, |i: int| i as usize);
        assert(target =~= earlier.push(idx));
        lemma_drawn_commit(c, o);
        match elements[n - 1] {
            SceneElement::Sprite { texture } => match o {
                Some(OpenBatch::Sprites(t, sprites)) if t == texture => {
                    assert(drawn(c) + sprites.push(idx) =~= (drawn(c) + sprites).push(idx));
                    let grown = sprites.push(idx);
                    assert forall|j: int| 0 <= j < grown.len() implies #[trigger] grown[j] < elements.len()
                        && elements[grown[j] as int] == (SceneElement::Sprite { texture }) by {
                        if j < sprites.len() {
                            assert(grown[j] == sprites[j]);
                        }
                    }
                },
                _ => {
                    let committed = commit(c, o);
                    if needs_load(texture, loaded) {
                        lemma_drawn_push(committed, CommandView::LoadTexture(texture));
                    }
                    assert(drawn(committed) + seq![idx] =~= drawn(committed).push(idx));
                    assert forall|k: int| 0 <= k < committed.len() implies command_fits(#[trigger] committed[k], elements) by {
                        if k < c.len() {
                            assert(committed[k] == c[k]);
                        }
                    }
                    if needs_load(texture, loaded) {
                        let prepared = committed.push(CommandView::LoadTexture(texture));
                        assert forall|k: int| 0 <= k < prepared.len() implies command_fits(#[trigger] prepared[k], elements) by {
                            if k < committed.len() {
                                assert(prepared[k] == committed[k]);
                            }
                        }
                    }
                },
            },
            SceneElement::Text { font } => {
                let committed = commit(c, o);
                lemma_drawn_push(committed, CommandView::DrawText(idx, font));
                assert(drawn(committed) + open_indices(None) =~= drawn(committed));
                let result = committed.push(CommandView::DrawText(idx, font));
                assert forall|k: int| 0 <= k < result.len() implies command_fits(#[trigger] result[k], elements) by {
                    if k < c.len() {
                        assert(result[k] == c[k]);
                    } else if k < committed.len() {
                        assert(result[k] == committed[k]);
                    }
                }
            },
            SceneElement::Shape => match o {
                Some(OpenBatch::Shapes(shapes)) => {
                    assert(drawn(c) + shapes.push(idx) =~= (drawn(c) + shapes).push(idx));
                    let grown = shapes.push(idx);
                    assert forall|j: int| 0 <= j < grown.len() implies #[trigger] grown[j] < elements.len()
                        && elements[grown[j] as int] == SceneElement::Shape by {
                        if j < shapes.len() {
                            assert(grown[j] == shapes[j]);
                        }
                    }
                },
                _ => {
                    let committed = commit(c, o);
                    assert(drawn(committed) + seq![idx] =~= drawn(committed).push(idx));
                    assert forall|k: int| 0 <= k < committed.len() implies command_fits(#[trigger] committed[k], elements) by {
                        if k < c.len() {
                            assert(committed[k] == c[k]);
                        }
                    }
                },
            },
        }
    }
}

/// A frame plan draws every element of the scene exactly once, in scene
/// order, each by a command of the right kind: sprites in batches of their
/// texture, shapes in batches of shapes, and each text in its own font.
pub proof fn lemma_plan_draws_each_element(elements: Seq<SceneElement>, loaded: Seq<(u64, bool)>)
    requires
        elements.len() <= usize::MAX,
    ensures
        drawn(planned_commands(elements, loaded)) == Seq::new(elements.len(), |i: int| i as usize),
        forall|k: int|
            0 <= k < planned_commands(elements, loaded).len() ==> command_fits(
                #[trigger] planned_commands(elements, loaded)[k],
                elements,
            ),
{
    lemma_plan_state(elements, loaded, elements.len() as int);
    assert(elements.take(elements.len() as int) =~= elements);
    let (c, o) = plan_state(elements, loaded);
    lemma_drawn_commit(c, o);
    let result = commit(c, o);
    assert forall|k: int| 0 <= k < result.len() implies command_fits(#[trigger] result[k], elements) by {
        if k < c.len() {
            assert(result[k] == c[k]);
        }
    }
}

/// Whether two draw commands could have been one: two batches of shapes, or
/// two batches of sprites from the same texture.
pub open spec fn mergeable(a: CommandView, b: CommandView) -> bool {
    match (a, b) {
        (CommandView::DrawShapes(_), CommandView::DrawShapes(_)) => true,
        (CommandView::DrawBatch(t1, _), CommandView::DrawBatch(t2, _)) => t1 == t2,
        _ => false,
    }
}

/// Whether every batch in `commands` is as large as it can be and each
/// upload comes right before the batch that needs it: no two draw commands
/// that follow each other (with at most an upload between them) could be
/// merged, and an upload of a texture is followed by a batch drawn from it.
pub open spec fn batches_maximal(commands: Seq<CommandView>) -> bool {
    &&& forall|k: int| 0 <= k < commands.len() - 1 ==> !mergeable(#[trigger] commands[k], commands[k + 1])
    &&& forall|k: int|
        0 <= k < commands.len() - 2 && commands[k + 1] is LoadTexture ==> !mergeable(
            #[trigger] commands[k],
            commands[k + 2],
        )
    &&& forall|k: int|
        0 <= k < commands.len() && #[trigger] commands[k] is LoadTexture ==> k + 1 < commands.len()
            && (commands[k + 1] is DrawBatch && commands[k + 1]->DrawBatch_0 == commands[k]->LoadTexture_0)
}

/// The command that draws an open batch.
pub open spec fn open_command(open: OpenBatch) -> CommandView {
    match open {
        OpenBatch::Sprites(texture, sprites) => CommandView::DrawBatch(texture, sprites),
        OpenBatch::Shapes(shapes) => CommandView::DrawShapes(shapes),
    }
}

/// The shape of a planning state: its commands are maximal so far, a
/// trailing upload belongs to the open batch, text leaves nothing open, and
/// the open batch could not be merged into the draw command before it.
spec fn plan_state_ok(commands: Seq<CommandView>, open: Option<OpenBatch>) -> bool {
    let n = commands.len();
    &&& forall|k: int| 0 <= k < n - 1 ==> !mergeable(#[trigger] commands[k], commands[k + 1])
    &&& forall|k: int|
        0 <= k < n - 2 && commands[k + 1] is LoadTexture ==> !mergeable(#[trigger] commands[k], commands[k + 2])
    &&& forall|k: int|
        0 <= k < n - 1 && #[trigger] commands[k] is LoadTexture ==> (commands[k + 1] is DrawBatch && commands[k + 1]->DrawBatch_0 == commands[k]->LoadTexture_0)
    &&& n > 0 && commands[n - 1] is LoadTexture ==> (open matches Some(OpenBatch::Sprites(t, _)) && t
        == commands[n - 1]->LoadTexture_0)
    &&& open is None ==> (n == 0 || commands[n - 1] is DrawText)
    &&& open is Some && n > 0 && !(commands[n - 1] is LoadTexture) ==> !mergeable(
        commands[n - 1],
        open_command(open.unwrap()),
    )
    &&& open is Some && n >= 2 && commands[n - 1] is LoadTexture ==> !mergeable(
        commands[n - 2],
        open_command(open.unwrap()),
    )
}

proof fn lemma_commit_ok(commands: Seq<CommandView>, open: Option<OpenBatch>)
    requires
        plan_state_ok(commands, open),
    ensures
        batches_maximal(commit(commands, open)),
        open is Some ==> commit(commands, open).len() > 0 && commit(commands, open).last() == open_command(
            open.unwrap(),
        ),
        open is None ==> commit(commands, open) == commands,
{
    let c = commit(commands, open);
    let n = commands.len();
    match open {
        None => {
            assert forall|k: int| 0 <= k < c.len() && #[trigger] c[k] is LoadTexture implies k + 1 < c.len()
                && (c[k + 1] is DrawBatch && c[k + 1]->DrawBatch_0 == c[k]->LoadTexture_0) by {
                if k == n - 1 {
                    assert(false);
                }
            }
        },
        Some(b) => {
            assert(c == commands.push(open_command(b)));
            assert forall|k: int| 0 <= k < c.len() - 1 implies !mergeable(#[trigger] c[k], c[k + 1]) by {
                assert(c[k] == commands[k]);
                if k < n - 1 {
                    assert(c[k + 1] == commands[k + 1]);
                }
            }
            assert forall|k: int| 0 <= k < c.len() - 2 && c[k + 1] is LoadTexture implies !mergeable(
                #[trigger] c[k],
                c[k + 2],
            ) by {
                assert(c[k] == commands[k]);
                assert(c[k + 1] == commands[k + 1]);
                if k < n - 2 {
                    assert(c[k + 2] == commands[k + 2]);
                }
            }
            assert forall|k: int| 0 <= k < c.len() && #[trigger] c[k] is LoadTexture implies k + 1 < c.len()
                && (c[k + 1] is DrawBatch && c[k + 1]->DrawBatch_0 == c[k]->LoadTexture_0) by {
                assert(c[k] == commands[k]);
                if k < n - 1 {
                    assert(c[k + 1] == commands[k + 1]);
                }
            }
        },
    }
}

proof fn lemma_step_ok(
    commands: Seq<CommandView>,
    open: Option<OpenBatch>,
    index: usize,
    element: SceneElement,
    loaded: Seq<(u64, bool)>,
)
    requires
        plan_state_ok(commands, open),
    ensures
        plan_state_ok(
            plan_step(commands, open, index, element, loaded).0,
            plan_step(commands, open, index, element, loaded).1,
        ),
{
    lemma_commit_ok(commands, open);
    let committed = commit(commands, open);
    let (c2, o2) = plan_step(commands, open, index, element, loaded);
    match element {
        SceneElement::Sprite { texture } => match open {
            Some(OpenBatch::Sprites(t, sprites)) if t == texture => {},
            _ => {
                let n = committed.len();
                if needs_load(texture, loaded) {
                    let load = CommandView::LoadTexture(texture);
                    assert(c2 == committed.push(load));
                    assert forall|k: int| 0 <= k < c2.len() - 1 implies !mergeable(#[trigger] c2[k], c2[k + 1]) by {
                        assert(c2[k] == committed[k]);
                        if k < n - 1 {
                            assert(c2[k + 1] == committed[k + 1]);
                        }
                    }
                    assert forall|k: int| 0 <= k < c2.len() - 2 && c2[k + 1] is LoadTexture implies !mergeable(
                        #[trigger] c2[k],
                        c2[k + 2],
                    ) by {
                        assert(c2[k] == committed[k]);
                        assert(c2[k + 1] == committed[k + 1]);
                        assert(c2[k + 2] == committed[k + 2]);
                    }
                    assert forall|k: int| 0 <= k < c2.len() - 1 && #[trigger] c2[k] is LoadTexture implies (c2[k + 1] is DrawBatch && c2[k + 1]->DrawBatch_0 == c2[k]->LoadTexture_0) by {
                        assert(c2[k] == committed[k]);
                        assert(k + 1 < n);
                        assert(c2[k + 1] == committed[k + 1]);
                    }
                    assert(c2[c2.len() - 1] == load);
                    if n > 0 {
                        assert(c2[c2.len() - 2] == committed[n - 1]);
                    }
                } else {
                    assert(c2 == committed);
                }
            },
        },
        SceneElement::Text { font } => {
            let n = committed.len();
            let text = CommandView::DrawText(index, font);
            assert(c2 == committed.push(text));
            assert forall|k: int| 0 <= k < c2.len() - 1 implies !mergeable(#[trigger] c2[k], c2[k + 1]) by {
                assert(c2[k] == committed[k]);
                if k < n - 1 {
                    assert(c2[k + 1] == committed[k + 1]);
                }
            }
            assert forall|k: int| 0 <= k < c2.len() - 2 && c2[k + 1] is LoadTexture implies !mergeable(
                #[trigger] c2[k],
                c2[k + 2],
            ) by {
                assert(c2[k] == committed[k]);
                assert(c2[k + 1] == committed[k + 1]);
                if k < n - 2 {
                    assert(c2[k + 2] == committed[k + 2]);
                }
            }
            assert forall|k: int| 0 <= k < c2.len() - 1 && #[trigger] c2[k] is LoadTexture implies (c2[k + 1] is DrawBatch && c2[k + 1]->DrawBatch_0 == c2[k]->LoadTexture_0) by {
                assert(c2[k] == committed[k]);
                if k < n - 1 {
                    assert(c2[k + 1] == committed[k + 1]);
                }
            }
        },
        SceneElement::Shape => match open {
            Some(OpenBatch::Shapes(shapes)) => {},
            _ => {
                assert(c2 == committed);
            },
        },
    }
}

proof fn lemma_plan_state_ok(elements: Seq<SceneElement>, loaded: Seq<(u64, bool)>)
    ensures
        plan_state_ok(plan_state(elements, loaded).0, plan_state(elements, loaded).1),
    decreases elements.len(),
{
    if elements.len() > 0 {
        lemma_plan_state_ok(elements.drop_last(), loaded);
        let (c, o) = plan_state(elements.drop_last(), loaded);
        lemma_step_ok(c, o, (elements.len() - 1) as usize, elements.last(), loaded);
    }
}

/// A frame plan batches as much as it can: no two draw commands that follow
/// each other (with at most an upload between them) could be merged into one,
/// and every upload is followed by a batch drawn from that texture.
pub proof fn lemma_plan_batches_are_maximal(elements: Seq<SceneElement>, loaded: Seq<(u64, bool)>)
    ensures
        batches_maximal(planned_commands(elements, loaded)),
{
    lemma_plan_state_ok(elements, loaded);
    let (c, o) = plan_state(elements, loaded);
    lemma_commit_ok(c, o);
}

/// Whether some text of `elements` is drawn in the font `font`.
pub open spec fn font_used(elements: Seq<SceneElement>, font: u64) -> bool {
    exists|i: int| 0 <= i < elements.len() && elements[i] == (SceneElement::Text { font })
}

/// Whether some text of `elements` is drawn in the font `font`.
fn uses_font(elements: &Vec<SceneElement>, font: u64) -> (r: bool)
    ensures
        r == font_used(elements@, font),
{
    let n = elements.len();
    let mut i: usize = 0;
    while i < n
        invariant
            n == elements@.len(),
            i <= n,
            forall|j: int| 0 <= j < i ==> elements@[j] != (SceneElement::Text { font }),
        decreases n - i,
    {
        match &elements[i] {
            SceneElement::Text { font: f } => {
                if *f == font {
                    return true;
                }
            },
            _ => {},
        }
        i = i + 1;
    }
    false
}

/// The fonts of `loaded_fonts`, whose glyphs are cached, that no text of the
/// scene `elements` uses any more: their caches are dropped when a frame
/// caches the glyphs it draws.
pub fn unused_fonts(elements: &Vec<SceneElement>, loaded_fonts: &Vec<u64>) -> (r: Vec<u64>)
    ensures
        forall|font: u64| #[trigger] r@.contains(font) <==> loaded_fonts@.contains(font) && !font_used(
            elements@,
            font,
        ),
{
    let mut unused: Vec<u64> = Vec::new();
    let n = loaded_fonts.len();
    let mut i: usize = 0;
    while i < n
        invariant
            n == loaded_fonts@.len(),
            i <= n,
            forall|font: u64| #[trigger] unused@.contains(font) <==> loaded_fonts@.take(i as int).contains(font)
                && !font_used(elements@, font),
        decreases n - i,
    {
        let font = loaded_fonts[i];
        let ghost before = unused@;
        if !uses_font(elements, font) {
            unused.push(font);
        }
        proof {
            let prefix = loaded_fonts@.take(i + 1);
            assert(prefix.drop_last() =~= loaded_fonts@.take(i as int));
            assert forall|f: u64| #[trigger] unused@.contains(f) <==> prefix.contains(f) && !font_used(elements@, f) by {
                if unused@.contains(f) && f != font {
                    let j = choose|j: int| 0 <= j < unused@.len() && unused@[j] == f;
                    if j < before.len() {
                        assert(before[j] == f);
                    }
                }
                if before.contains(f) {
                    let j = choose|j: int| 0 <= j < before.len() && before[j] == f;
                    assert(unused@[j] == f);
                }
                if prefix.contains(f) {
                    let j = choose|j: int| 0 <= j < prefix.len() && prefix[j] == f;
                    if j < i {
                        assert(loaded_fonts@.take(i as int)[j] == f);
                    }
                }
                if loaded_fonts@.take(i as int).contains(f) {
                    let j = choose|j: int| 0 <= j < i && loaded_fonts@.take(i as int)[j] == f;
                    assert(prefix[j] == f);
                }
                if f == font {
                    assert(prefix[i as int] == f);
                    if !font_used(elements@, f) {
                        assert(unused@[unused@.len() - 1] == f);
                    }
                }
            }
        }
        i = i + 1;
    }
    assert(loaded_fonts@.take(n as int) =~= loaded_fonts@);
    unused
}

} // verus!

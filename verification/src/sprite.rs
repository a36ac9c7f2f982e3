//! Sprites: named animations of frames, and the state of playing one of them.

use vstd::prelude::*;

use crate::time::{max_nanos, Duration};

pub mod aseprite;
pub mod sheet;
pub mod source;

verus! {

/// The animation mode of a sprite.
#[derive(Debug, Clone, Copy, PartialEq, Eq, Structural)]
pub enum AnimationMode {
    /// Iterate frames in order. When at the end, reset to the start.
    Forward,
    /// Iterate frames in reverse order. When at the start, reset to the end.
    Reverse,
    /// Iterate frames starting at the beginning and continuously iterating
    /// forwards and backwards across the frames, changing direction whenever
    /// the start or end are reached.
    PingPong,
}

/// The direction in which a sprite currently steps through its frames.
#[derive(Debug, Clone, Copy, PartialEq, Eq, Structural)]
pub enum AnimationDirection {
    /// Towards later frames.
    Forward,
    /// Towards earlier frames.
    Reverse,
}

/// The direction an animation in `mode` starts in.
pub open spec fn spec_default_direction(mode: AnimationMode) -> AnimationDirection {
    match mode {
        AnimationMode::Reverse => AnimationDirection::Reverse,
        _ => AnimationDirection::Forward,
    }
}

impl AnimationMode {
    /// The direction an animation in this mode starts in.
    pub fn default_direction(&self) -> (r: AnimationDirection)
        ensures
            r == spec_default_direction(*self),
    {
        match self {
            AnimationMode::Forward | AnimationMode::PingPong => AnimationDirection::Forward,
            AnimationMode::Reverse => AnimationDirection::Reverse,
        }
    }
}

/// An error parsing a single frame in a sprite animation.
#[derive(Clone, Copy, Eq, PartialEq, Debug, Structural)]
pub enum FrameParseError {
    /// The frame number was not able to be parsed as a number.
    NotNumeric,
    /// The duration is invalid or missing.
    Duration,
    /// The data is missing the `frame` field, which contains the region in the
    /// texture to use for this frame.
    MissingRegion,
    /// The `frame.x` value is missing or invalid.
    X,
    /// The `frame.y` value is missing or invalid.
    Y,
    /// The `frame.w` value is missing or invalid.
    Width,
    /// The `frame.h` value is missing or invalid.
    Height,
}

/// An error parsing a `frameTags` entry.
#[derive(Clone, Copy, Eq, PartialEq, Debug, Structural)]
pub enum FrameTagError {
    /// The direction field is missing.
    DirectionMissing,
    /// The direction is not a recognized value.
    DirectionUnknown,
    /// The from field is missing or invalid.
    From,
    /// The to field is missing or invalid.
    To,
    /// The frame could not be found.
    InvalidFrame,
}

/// An error loading a sprite sheet.
#[derive(Debug)]
#[allow(inconsistent_fields)]
pub enum SpriteParseError {
    /// The `meta` field is missing or invalid.
    Meta,
    /// The size information is missing.
    SizeMissing,
    /// The size does not match the provided texture.
    SizeMismatch,
    /// An error parsing a frame tag (animation).
    FrameTag {
        /// The name of the frame tag.
        name: String,
        /// The error that occurred.
        error: FrameTagError,
    },
    /// An error occurred parsing a frame.
    Frame {
        /// The object key for the frame.
        key: String,
        /// The error that occurred.
        error: FrameParseError,
    },
    /// Invalid JSON.
    Json(justjson::Error),
}

/// The error of `justjson`'s parser, `justjson::Error`. Nothing is claimed
/// of it: sprite loading only carries it along.
#[verifier::external_type_specification]
#[verifier::external_body]
#[verifier::reject_recursive_types(DelegateError)]
pub struct ExJsonError<DelegateError>(justjson::Error<DelegateError>);

/// A sprite's tag did not correspond to an animation.
#[derive(Clone, Copy, Debug, Eq, PartialEq, Structural)]
pub struct InvalidSpriteTag;

/// A single frame of a [`SpriteAnimation`].
#[derive(Debug)]
pub struct SpriteFrame<S> {
    /// The source to render.
    pub source: S,
    /// How long the frame is shown. `None` acts as an infinite duration.
    pub duration: Option<Duration>,
}

/// Whether `b` is a clone of the frame `a`.
pub open spec fn frame_cloned<S: Clone>(a: SpriteFrame<S>, b: SpriteFrame<S>) -> bool {
    a.duration == b.duration && cloned(a.source, b.source)
}

impl<S: Clone> Clone for SpriteFrame<S> {
    fn clone(&self) -> (r: Self)
        ensures
            r.duration == self.duration,
            cloned(self.source, r.source),
    {
        SpriteFrame { source: self.source.clone(), duration: self.duration }
    }
}

impl<S> SpriteFrame<S> {
    /// A frame showing `source`, with no duration.
    pub fn new(source: S) -> (r: Self)
        ensures
            r.source == source,
            r.duration is None,
    {
        SpriteFrame { source, duration: None }
    }

    /// Returns this frame shown for `duration`.
    pub fn with_duration(self, duration: Duration) -> (r: Self)
        ensures
            r.source == self.source,
            r.duration == Some(duration),
    {
        SpriteFrame { source: self.source, duration: Some(duration) }
    }
}

/// An animation of one or more [`SpriteFrame`]s.
#[derive(Debug)]
pub struct SpriteAnimation<S> {
    /// The frames of the animation.
    pub frames: Vec<SpriteFrame<S>>,
    /// The mode of the animation.
    pub mode: AnimationMode,
}

/// Whether `b` is a clone of the animation `a`: the same mode, and a clone of
/// each frame.
pub open spec fn animation_cloned<S: Clone>(a: SpriteAnimation<S>, b: SpriteAnimation<S>) -> bool {
    &&& a.mode == b.mode
    &&& a.frames@.len() == b.frames@.len()
    &&& forall|i: int| 0 <= i < a.frames@.len() ==> frame_cloned(a.frames@[i], #[trigger] b.frames@[i])
}

impl<S: Clone> Clone for SpriteAnimation<S> {
    fn clone(&self) -> (r: Self)
        ensures
            animation_cloned(*self, r),
    {
        let frames = self.frames.clone();
        proof {
            assert forall|i: int| 0 <= i < self.frames@.len() implies frame_cloned(
                self.frames@[i],
                #[trigger] frames@[i],
            ) by {
                assert(cloned(self.frames[i], frames[i]));
            }
        }
        SpriteAnimation { frames, mode: self.mode }
    }
}

impl<S> SpriteAnimation<S> {
    /// An animation of `frames` in [`AnimationMode::Forward`].
    pub fn new(frames: Vec<SpriteFrame<S>>) -> (r: Self)
        ensures
            r.frames == frames,
            r.mode == AnimationMode::Forward,
    {
        SpriteAnimation { frames, mode: AnimationMode::Forward }
    }

    /// Returns this animation played in `mode`.
    pub fn with_mode(self, mode: AnimationMode) -> (r: Self)
        ensures
            r.frames == self.frames,
            r.mode == mode,
    {
        SpriteAnimation { frames: self.frames, mode }
    }
}

/// The text of a tag, if there is one.
pub open spec fn tag_view(tag: Option<String>) -> Option<Seq<char>> {
    match tag {
        Some(name) => Some(name@),
        None => None,
    }
}

/// Whether two tags are the same.
pub fn same_tag(a: &Option<String>, b: &Option<String>) -> (r: bool)
    ensures
        r == (tag_view(*a) == tag_view(*b)),
{
    match (a, b) {
        (Some(x), Some(y)) => *x == *y,
        (None, None) => true,
        _ => false,
    }
}

/// The animations of a sprite, each under its own tag; the untagged
/// animation is stored under `None`.
#[derive(Debug)]
pub struct SpriteAnimations<S> {
    animations: Vec<(Option<String>, SpriteAnimation<S>)>,
}

/// The map made by inserting each tagged animation of `list` in order; a
/// later animation replaces an earlier one with the same tag.
pub open spec fn animations_from_list<S>(list: Seq<(Option<String>, SpriteAnimation<S>)>) -> Map<
    Option<Seq<char>>,
    SpriteAnimation<S>,
>
    decreases list.len(),
{
    if list.len() == 0 {
        Map::empty()
    } else {
        animations_from_list(list.drop_last()).insert(tag_view(list.last().0), list.last().1)
    }
}

impl<S> SpriteAnimations<S> {
    #[verifier::type_invariant]
    spec fn distinct_tags(&self) -> bool {
        forall|a: int, b: int|
            0 <= a < b < self.animations@.len() ==> tag_view(self.animations@[a].0) != tag_view(
                self.animations@[b].0,
            )
    }

    spec fn holds(&self, tag: Option<Seq<char>>) -> bool {
        exists|i: int| 0 <= i < self.animations@.len() && tag_view(self.animations@[i].0) == tag
    }

    spec fn position(&self, tag: Option<Seq<char>>) -> int {
        choose|i: int| 0 <= i < self.animations@.len() && tag_view(self.animations@[i].0) == tag
    }
}

impl<S> View for SpriteAnimations<S> {
    type V = Map<Option<Seq<char>>, SpriteAnimation<S>>;

    /// Each tag's animation.
    closed spec fn view(&self) -> Map<Option<Seq<char>>, SpriteAnimation<S>> {
        Map::new(|tag: Option<Seq<char>>| self.holds(tag), |tag: Option<Seq<char>>| self.animations@[self.position(tag)].1)
    }
}

impl<S> SpriteAnimations<S> {
    proof fn lemma_view_at(&self, i: int)
        requires
            self.distinct_tags(),
            0 <= i < self.animations@.len(),
        ensures
            self@.dom().contains(tag_view(self.animations@[i].0)),
            self@[tag_view(self.animations@[i].0)] == self.animations@[i].1,
    {
        let tag = tag_view(self.animations@[i].0);
        assert(self.holds(tag));
        let j = self.position(tag);
        if j != i {
            if j < i {
                assert(tag_view(self.animations@[j].0) != tag_view(self.animations@[i].0));
            } else {
                assert(tag_view(self.animations@[i].0) != tag_view(self.animations@[j].0));
            }
        }
    }

    /// A collection with no animations.
    pub fn empty() -> (r: Self)
        ensures
            r@ == Map::<Option<Seq<char>>, SpriteAnimation<S>>::empty(),
    {
        let r = SpriteAnimations { animations: Vec::new() };
        assert(r@ =~= Map::<Option<Seq<char>>, SpriteAnimation<S>>::empty());
        r
    }

    /// Stores `animation` under `tag`, replacing any animation stored there.
    pub fn insert(&mut self, tag: Option<String>, animation: SpriteAnimation<S>)
        ensures
            final(self)@ == old(self)@.insert(tag_view(tag), animation),
    {
        proof {
            use_type_invariant(&*self);
        }
        let ghost before = *self;
        let mut entries: Vec<(Option<String>, SpriteAnimation<S>)> = Vec::new();
        std::mem::swap(&mut entries, &mut self.animations);
        let ghost t = tag_view(tag);
        let n = entries.len();
        let mut i: usize = 0;
        let mut found = false;
        while i < n
            invariant_except_break
                !found,
                forall|j: int| 0 <= j < i ==> tag_view(entries@[j].0) != t,
            invariant
                entries@ == before.animations@,
                n == before.animations@.len(),
                i <= n,
                t == tag_view(tag),
            ensures
                found ==> i < n && tag_view(before.animations@[i as int].0) == t,
                !found ==> forall|j: int| 0 <= j < n ==> tag_view(entries@[j].0) != t,
            decreases n - i,
        {
            if same_tag(&entries[i].0, &tag) {
                found = true;
                break;
            }
            i = i + 1;
        }
        if found {
            entries.set(i, (tag, animation));
        } else {
            entries.push((tag, animation));
        }
        self.animations = entries;
        proof {
            assert forall|k: Option<Seq<char>>| #[trigger] self.holds(k) == (before.holds(k) || k == t) by {
                if before.holds(k) {
                    let j = before.position(k);
                    if !found || j != i {
                        assert(tag_view(self.animations@[j].0) == k);
                    }
                }
                if k == t {
                    if found {
                        assert(tag_view(self.animations@[i as int].0) == k);
                    } else {
                        assert(tag_view(self.animations@[n as int].0) == k);
                    }
                }
                if self.holds(k) {
                    let j = self.position(k);
                    if j < n && !(found && j == i) {
                        assert(tag_view(before.animations@[j].0) == k);
                    }
                }
            }
            assert(self@ =~= before@.insert(t, animation)) by {
                assert forall|k: Option<Seq<char>>| #[trigger] self@.dom().contains(k) implies self@[k]
                    == before@.insert(t, animation)[k] by {
                    let j = self.position(k);
                    self.lemma_view_at(j);
                    if k != t {
                        before.lemma_view_at(j);
                    }
                }
            }
        }
    }

    /// Collects `animations`, inserting each in order; a later animation
    /// replaces an earlier one with the same tag.
    pub fn new(animations: Vec<(Option<String>, SpriteAnimation<S>)>) -> (r: Self)
        ensures
            r@ == animations_from_list(animations@),
    {
        let ghost list = animations@;
        let n = animations.len();
        let mut rest = crate::ext::VecExt::reversed(animations);
        let mut r = SpriteAnimations::empty();
        let mut i: usize = 0;
        assert(list.subrange(0, 0).len() == 0);
        assert(animations_from_list(list.subrange(0, 0)) =~= Map::empty());
        while i < n
            invariant
                n == list.len(),
                i <= n,
                rest@ == list.subrange(i as int, n as int).reverse(),
                r@ == animations_from_list(list.subrange(0, i as int)),
            decreases n - i,
        {
            let ghost prefix = list.subrange(0, i + 1);
            assert(rest@.len() == n - i);
            assert(rest@.last() == list[i as int]);
            let entry = rest.pop().unwrap();
            assert(rest@ =~= list.subrange(i + 1, n as int).reverse());
            assert(prefix.drop_last() =~= list.subrange(0, i as int));
            r.insert(entry.0, entry.1);
            i = i + 1;
        }
        assert(list.subrange(0, n as int) =~= list);
        r
    }

    /// The animation stored under `tag`.
    pub fn animation_for(&self, tag: &Option<String>) -> (r: Option<&SpriteAnimation<S>>)
        ensures
            r matches Some(a) ==> self@.dom().contains(tag_view(*tag)) && self@[tag_view(*tag)] == *a,
            r is None ==> !self@.dom().contains(tag_view(*tag)),
    {
        proof {
            use_type_invariant(self);
        }
        let n = self.animations.len();
        let mut i: usize = 0;
        while i < n
            invariant
                n == self.animations@.len(),
                i <= n,
                self.distinct_tags(),
                forall|j: int| 0 <= j < i ==> tag_view(self.animations@[j].0) != tag_view(*tag),
            decreases n - i,
        {
            if same_tag(&self.animations[i].0, tag) {
                proof {
                    self.lemma_view_at(i as int);
                }
                return Some(&self.animations[i].1);
            }
            i = i + 1;
        }
        proof {
            if self@.dom().contains(tag_view(*tag)) {
                let j = self.position(tag_view(*tag));
                assert(tag_view(self.animations@[j].0) == tag_view(*tag));
            }
        }
        None
    }
}

/// What a sprite holds: its animations, and where it is in playing the one
/// under its current tag.
pub struct SpriteView<S> {
    /// Each tag's animation.
    pub animations: Map<Option<Seq<char>>, SpriteAnimation<S>>,
    /// Nanoseconds elapsed since the frame last changed.
    pub elapsed: nat,
    /// The tag of the animation being played.
    pub tag: Option<Seq<char>>,
    /// The index of the frame being shown.
    pub frame: usize,
    /// The direction in which the frames are stepped through.
    pub direction: AnimationDirection,
}

/// The animation a sprite in state `v` is playing, if its tag names one.
pub open spec fn current_animation<S>(v: SpriteView<S>) -> Option<SpriteAnimation<S>> {
    if v.animations.dom().contains(v.tag) {
        Some(v.animations[v.tag])
    } else {
        None
    }
}

/// Whether the frame index of `v` lies inside the animation being played
/// (or no animation is being played).
pub open spec fn frame_in_bounds<S>(v: SpriteView<S>) -> bool {
    match current_animation(v) {
        Some(a) => v.frame < a.frames@.len(),
        None => true,
    }
}

/// The frame and direction that follow those of `v` in `animation`, or
/// `None` where stepping fails: the index arithmetic overflows, a
/// [`AnimationMode::Forward`] animation is stepped below its first frame, or
/// a [`AnimationMode::Reverse`] one past its last. A
/// [`AnimationMode::PingPong`] animation of fewer than two frames has nowhere
/// to turn to and stays on its first frame.
pub open spec fn step_frame<S>(v: SpriteView<S>, animation: SpriteAnimation<S>) -> Option<
    (usize, AnimationDirection),
> {
    let len = animation.frames@.len();
    let start = (v.frame as i32) as int;
    let next = match v.direction {
        AnimationDirection::Forward => start + 1,
        AnimationDirection::Reverse => start - 1,
    };
    if next > i32::MAX || next < i32::MIN {
        None
    } else if next < 0 {
        match animation.mode {
            AnimationMode::Forward => None,
            AnimationMode::Reverse => if len == 0 {
                None
            } else {
                Some(((len - 1) as usize, v.direction))
            },
            AnimationMode::PingPong => if len < 2 {
                Some((0usize, v.direction))
            } else {
                Some((1usize, AnimationDirection::Forward))
            },
        }
    } else if next >= len {
        match animation.mode {
            AnimationMode::Reverse => None,
            AnimationMode::Forward => Some((0usize, v.direction)),
            AnimationMode::PingPong => if len < 2 {
                Some((0usize, v.direction))
            } else {
                Some(((len - 2) as usize, AnimationDirection::Reverse))
            },
        }
    } else {
        Some((next as usize, v.direction))
    }
}

/// The state reached from `v` by moving on through the frames for as long
/// as the time spent on the frame being shown exceeds its duration, taking
/// that duration off the time each time; or `None` where that fails: the
/// frame index lies outside its animation, a frame to leave lasts no time at
/// all, or stepping fails (see [`step_frame`]).
pub open spec fn advanced<S>(v: SpriteView<S>) -> Option<SpriteView<S>>
    decreases v.elapsed,
{
    match current_animation(v) {
        None => Some(v),
        Some(a) => {
            if v.frame >= a.frames@.len() {
                None
            } else {
                match a.frames@[v.frame as int].duration {
                    Some(d) if v.elapsed > d@ => {
                        if d@ == 0 {
                            None
                        } else {
                            match step_frame(v, a) {
                                None => None,
                                Some(next) => advanced(
                                    SpriteView {
                                        elapsed: (v.elapsed - d@) as nat,
                                        frame: next.0,
                                        direction: next.1,
                                        ..v
                                    },
                                ),
                            }
                        }
                    },
                    _ => Some(v),
                }
            }
        },
    }
}

/// The state after [`Sprite::get_frame`] is given `elapsed` nanoseconds in
/// state `v`: the time is added to the time spent on the frame, and the
/// animation moves on by as many frames as that time covers (see
/// [`advanced`]). `None` where the call cannot complete: the elapsed time
/// overflows, or moving on fails.
pub open spec fn state_after_elapsed<S>(v: SpriteView<S>, elapsed: Option<nat>) -> Option<SpriteView<S>> {
    match elapsed {
        None => Some(v),
        Some(e) => {
            if v.elapsed + e > max_nanos() {
                None
            } else {
                advanced(SpriteView { elapsed: v.elapsed + e, ..v })
            }
        },
    }
}

/// The animations that merging `source` collects: the untagged animation of
/// each sprite, under the sprite's name; a later sprite replaces an earlier
/// one of the same name, and a sprite without an untagged animation adds
/// nothing.
pub open spec fn merged_animations<S>(source: Seq<(String, Sprite<S>)>) -> Map<
    Option<Seq<char>>,
    SpriteAnimation<S>,
>
    decreases source.len(),
{
    if source.len() == 0 {
        Map::empty()
    } else {
        let earlier = merged_animations(source.drop_last());
        let (name, sprite) = source.last();
        if sprite@.animations.dom().contains(None) {
            earlier.insert(Some(name@), sprite@.animations[None])
        } else {
            earlier
        }
    }
}

/// A renderable graphic with optional animations.
#[derive(Debug)]
pub struct Sprite<S> {
    /// The animations that form this sprite.
    pub animations: SpriteAnimations<S>,
    elapsed_since_frame_change: Duration,
    current_tag: Option<String>,
    current_frame: usize,
    current_animation_direction: AnimationDirection,
}

impl<S> View for Sprite<S> {
    type V = SpriteView<S>;

    closed spec fn view(&self) -> SpriteView<S> {
        SpriteView {
            animations: self.animations@,
            elapsed: self.elapsed_since_frame_change@,
            tag: tag_view(self.current_tag),
            frame: self.current_frame,
            direction: self.current_animation_direction,
        }
    }
}

impl<S> Sprite<S> {
    /// A sprite playing the untagged animation of `animations` from its first
    /// frame.
    pub fn new(animations: SpriteAnimations<S>) -> (r: Self)
        ensures
            r@ == (SpriteView {
                animations: animations@,
                elapsed: 0,
                tag: None,
                frame: 0,
                direction: AnimationDirection::Forward,
            }),
    {
        Sprite {
            animations,
            elapsed_since_frame_change: Duration::zero(),
            current_tag: None,
            current_frame: 0,
            current_animation_direction: AnimationDirection::Forward,
        }
    }

    /// A sprite whose untagged animation is the single frame `texture`.
    pub fn single_frame(texture: S) -> (r: Self)
        ensures
            r@.animations.dom() =~= set![None],
            r@.animations[None].mode == AnimationMode::Forward,
            r@.animations[None].frames@ == seq![SpriteFrame { source: texture, duration: None }],
            r@.elapsed == 0,
            r@.tag is None,
            r@.frame == 0,
            r@.direction == AnimationDirection::Forward,
    {
        let mut frames = Vec::new();
        frames.push(SpriteFrame::new(texture));
        let mut animations = SpriteAnimations::empty();
        animations.insert(None, SpriteAnimation::new(frames).with_mode(AnimationMode::Forward));
        assert(frames@ =~= seq![SpriteFrame { source: texture, duration: None }]);
        Sprite::new(animations)
    }

    /// Switches to the animation under `tag`. If `tag` is the current tag,
    /// nothing happens; otherwise the frame index returns to the start and the
    /// direction to the new animation's default. The time elapsed on the
    /// current frame is kept.
    ///
    /// Returns an error, and changes nothing, when no animation has that tag.
    pub fn set_current_tag(&mut self, tag: Option<String>) -> (r: Result<(), InvalidSpriteTag>)
        ensures
            old(self)@.tag == tag_view(tag) ==> r is Ok && final(self)@ == old(self)@,
            old(self)@.tag != tag_view(tag) ==> {
                if old(self)@.animations.dom().contains(tag_view(tag)) {
                    &&& r is Ok
                    &&& final(self)@ == (SpriteView {
                        tag: tag_view(tag),
                        frame: 0,
                        direction: spec_default_direction(old(self)@.animations[tag_view(tag)].mode),
                        ..old(self)@
                    })
                } else {
                    r is Err && final(self)@ == old(self)@
                }
            },
    {
        if !same_tag(&self.current_tag, &tag) {
            let direction = match self.animations.animation_for(&tag) {
                Some(animation) => animation.mode.default_direction(),
                None => return Err(InvalidSpriteTag),
            };
            self.current_animation_direction = direction;
            self.current_frame = 0;
            self.current_tag = tag;
        }
        Ok(())
    }

    /// The current tag.
    pub fn current_tag(&self) -> (r: Option<&str>)
        ensures
            r matches Some(t) ==> self@.tag == Some(t@),
            r is None ==> self@.tag is None,
    {
        match &self.current_tag {
            Some(tag) => Some(tag.as_str()),
            None => None,
        }
    }

    /// The frame being shown, when the current tag names an animation.
    fn current_animation_frame(&self) -> (r: Result<&SpriteFrame<S>, InvalidSpriteTag>)
        requires
            frame_in_bounds(self@),
        ensures
            r is Err <==> current_animation(self@) is None,
            r matches Ok(f) ==> *f == current_animation(self@).unwrap().frames@[self@.frame as int],
    {
        match self.animations.animation_for(&self.current_tag) {
            Some(animation) => Ok(&animation.frames[self.current_frame]),
            None => Err(InvalidSpriteTag),
        }
    }

    /// The frame index that follows the current one, turning the direction
    /// around where a ping-pong animation reaches either end.
    fn next_frame(&mut self) -> (r: Result<usize, InvalidSpriteTag>)
        requires
            current_animation(old(self)@) matches Some(a) ==> step_frame(old(self)@, a) is Some,
        ensures
            current_animation(old(self)@) is None ==> r is Err && final(self)@ == old(self)@,
            current_animation(old(self)@) matches Some(a) ==> {
                let next = step_frame(old(self)@, a).unwrap();
                &&& r == Ok::<usize, InvalidSpriteTag>(next.0)
                &&& final(self)@ == (SpriteView { direction: next.1, ..old(self)@ })
            },
    {
        let starting_frame = self.current_frame as i32;
        let animation = match self.animations.animation_for(&self.current_tag) {
            Some(animation) => animation,
            None => return Err(InvalidSpriteTag),
        };
        let next_frame = match self.current_animation_direction {
            AnimationDirection::Forward => starting_frame + 1,
            AnimationDirection::Reverse => starting_frame - 1,
        };
        let len = animation.frames.len();
        let next = if next_frame < 0 {
            match animation.mode {
                AnimationMode::Reverse => len - 1,
                _ => {
                    if len < 2 {
                        0
                    } else {
                        self.current_animation_direction = AnimationDirection::Forward;
                        1
                    }
                },
            }
        } else if next_frame as usize >= len {
            match animation.mode {
                AnimationMode::Forward => 0,
                _ => {
                    if len < 2 {
                        0
                    } else {
                        self.current_animation_direction = AnimationDirection::Reverse;
                        len - 2
                    }
                },
            }
        } else {
            next_frame as usize
        };
        Ok(next)
    }

    /// Moves to the frame that follows the current one.
    fn advance_frame(&mut self) -> (r: Result<(), InvalidSpriteTag>)
        requires
            current_animation(old(self)@) matches Some(a) ==> step_frame(old(self)@, a) is Some,
        ensures
            current_animation(old(self)@) is None ==> r is Err && final(self)@ == old(self)@,
            current_animation(old(self)@) matches Some(a) ==> {
                let next = step_frame(old(self)@, a).unwrap();
                &&& r is Ok
                &&& final(self)@ == (SpriteView { frame: next.0, direction: next.1, ..old(self)@ })
            },
    {
        let next = self.next_frame()?;
        self.current_frame = next;
        Ok(())
    }
}

impl<S: Clone> Sprite<S> {
    /// The source of the frame being shown.
    ///
    /// Returns an error when the current tag names no animation.
    pub fn current_frame(&self) -> (r: Result<S, InvalidSpriteTag>)
        requires
            frame_in_bounds(self@),
        ensures
            r is Err <==> current_animation(self@) is None,
            r matches Ok(s) ==> cloned(current_animation(self@).unwrap().frames@[self@.frame as int].source, s),
    {
        let frame = self.current_animation_frame()?;
        Ok(frame.source.clone())
    }

    /// Advances the animation by `elapsed`, then returns the source of the
    /// frame being shown. Pass `None` to read the frame without advancing.
    ///
    /// While the time spent on the current frame exceeds its duration, the
    /// sprite moves to the next frame and keeps the excess time, so it moves
    /// on by as many frames as `elapsed` covers.
    ///
    /// Returns an error when the current tag names no animation.
    pub fn get_frame(&mut self, elapsed: Option<Duration>) -> (r: Result<S, InvalidSpriteTag>)
        requires
            state_after_elapsed(
                old(self)@,
                match elapsed {
                    Some(e) => Some(e@),
                    None => None,
                },
            ) matches Some(v) && frame_in_bounds(v),
        ensures
            Some(final(self)@) == state_after_elapsed(
                old(self)@,
                match elapsed {
                    Some(e) => Some(e@),
                    None => None,
                },
            ),
            r is Err <==> current_animation(final(self)@) is None,
            r matches Ok(s) ==> cloned(
                current_animation(final(self)@).unwrap().frames@[final(self)@.frame as int].source,
                s,
            ),
    {
        if let Some(step) = elapsed {
            self.elapsed_since_frame_change = self.elapsed_since_frame_change.add(step);
            let ghost target = advanced(self@).unwrap();
            let mut done = false;
            while !done
                invariant
                    advanced(self@) == Some(target),
                    elapsed == Some(step),
                    Some(target) == state_after_elapsed(old(self)@, Some(step@)),
                    frame_in_bounds(target),
                    done ==> self@ == target,
                decreases self@.elapsed + (if done {
                    0int
                } else {
                    1int
                }),
            {
                let frame_duration = match self.current_animation_frame() {
                    Ok(frame) => frame.duration,
                    Err(e) => {
                        assert(advanced(self@) == Some(self@));
                        return Err(e);
                    },
                };
                match frame_duration {
                    Some(d) => {
                        if self.elapsed_since_frame_change.longer_than(&d) {
                            match self.elapsed_since_frame_change.checked_sub(d) {
                                Some(rest) => {
                                    self.elapsed_since_frame_change = rest;
                                },
                                None => {},
                            }
                            self.advance_frame()?;
                        } else {
                            done = true;
                        }
                    },
                    None => {
                        done = true;
                    },
                }
            }
        }
        self.current_frame()
    }

    /// The time left until the frame being shown is due to change: its
    /// duration less the time already spent on it, or zero once that has
    /// passed. `None` when the frame has no duration.
    ///
    /// Returns an error when the current tag names no animation.
    pub fn remaining_frame_duration(&self) -> (r: Result<Option<Duration>, InvalidSpriteTag>)
        requires
            frame_in_bounds(self@),
        ensures
            r is Err <==> current_animation(self@) is None,
            r matches Ok(remaining) ==> {
                let frame = current_animation(self@).unwrap().frames@[self@.frame as int];
                match frame.duration {
                    None => remaining is None,
                    Some(d) => remaining matches Some(left) && left@ == (if d@ >= self@.elapsed {
                        d@ - self@.elapsed
                    } else {
                        0
                    }),
                }
            },
    {
        let frame = self.current_animation_frame()?;
        let remaining = match frame.duration {
            Some(frame_duration) => match frame_duration.checked_sub(self.elapsed_since_frame_change) {
                Some(left) => Some(left),
                None => Some(Duration::zero()),
            },
            None => None,
        };
        Ok(remaining)
    }

    /// Combines sprites that have no tags: the untagged animation of each
    /// sprite becomes a clone, tagged with its name, in the result. A later
    /// sprite replaces an earlier one of the same name, and a sprite without
    /// an untagged animation is skipped.
    pub fn merged(source: Vec<(String, Sprite<S>)>) -> (r: Self)
        ensures
            r@.elapsed == 0,
            r@.tag is None,
            r@.frame == 0,
            r@.direction == AnimationDirection::Forward,
            r@.animations.dom() == merged_animations(source@).dom(),
            forall|tag: Option<Seq<char>>|
                #[trigger] r@.animations.dom().contains(tag) ==> animation_cloned(
                    merged_animations(source@)[tag],
                    r@.animations[tag],
                ),
    {
        let mut combined = SpriteAnimations::empty();
        let n = source.len();
        let mut i: usize = 0;
        assert(merged_animations(source@.subrange(0, 0)) =~= Map::empty());
        while i < n
            invariant
                n == source@.len(),
                i <= n,
                combined@.dom() == merged_animations(source@.subrange(0, i as int)).dom(),
                forall|tag: Option<Seq<char>>|
                    #[trigger] combined@.dom().contains(tag) ==> animation_cloned(
                        merged_animations(source@.subrange(0, i as int))[tag],
                        combined@[tag],
                    ),
            decreases n - i,
        {
            let ghost prefix = source@.subrange(0, i + 1);
            assert(prefix.drop_last() =~= source@.subrange(0, i as int));
            assert(prefix.last() == source@[i as int]);
            let entry = &source[i];
            match entry.1.animations.animation_for(&None) {
                Some(animation) => {
                    let tag = Some(entry.0.clone());
                    let copy = animation.clone();
                    combined.insert(tag, copy);
                },
                None => {},
            }
            i = i + 1;
        }
        assert(source@.subrange(0, n as int) =~= source@);
        Sprite::new(combined)
    }
}

/// Whether stepping in `direction` suits an animation in `mode`: forward
/// for [`AnimationMode::Forward`], in reverse for [`AnimationMode::Reverse`],
/// either way for [`AnimationMode::PingPong`].
pub open spec fn direction_suits(direction: AnimationDirection, mode: AnimationMode) -> bool {
    match mode {
        AnimationMode::Forward => direction == AnimationDirection::Forward,
        AnimationMode::Reverse => direction == AnimationDirection::Reverse,
        AnimationMode::PingPong => true,
    }
}

/// A forward animation steps to the next frame and wraps from its last frame
/// back to its first.
pub proof fn lemma_forward_cycles<S>(v: SpriteView<S>, animation: SpriteAnimation<S>)
    requires
        animation.mode == AnimationMode::Forward,
        v.direction == AnimationDirection::Forward,
        v.frame < animation.frames@.len(),
        v.frame < i32::MAX,
    ensures
        step_frame(v, animation) == Some(
            (((v.frame + 1) % (animation.frames@.len() as int)) as usize, AnimationDirection::Forward),
        ),
{
    assert((v.frame as i32) as int == v.frame);
    if v.frame + 1 == animation.frames@.len() {
        assert((v.frame + 1) % (animation.frames@.len() as int) == 0) by (nonlinear_arith)
            requires
                v.frame + 1 == animation.frames@.len(),
        ;
    } else {
        assert((v.frame + 1) % (animation.frames@.len() as int) == v.frame + 1) by (nonlinear_arith)
            requires
                v.frame + 1 < animation.frames@.len(),
                0 <= v.frame,
        ;
    }
}

/// A reverse animation steps to the previous frame and wraps from its first
/// frame around to its last.
pub proof fn lemma_reverse_cycles<S>(v: SpriteView<S>, animation: SpriteAnimation<S>)
    requires
        animation.mode == AnimationMode::Reverse,
        v.direction == AnimationDirection::Reverse,
        v.frame < animation.frames@.len(),
        v.frame <= i32::MAX,
    ensures
        step_frame(v, animation) == Some(
            (
                ((v.frame + animation.frames@.len() - 1) % (animation.frames@.len() as int)) as usize,
                AnimationDirection::Reverse,
            ),
        ),
{
    let len = animation.frames@.len() as int;
    assert((v.frame as i32) as int == v.frame);
    if v.frame == 0 {
        assert((len - 1) % len == len - 1) by (nonlinear_arith)
            requires
                len >= 1,
        ;
    } else {
        assert((v.frame + len - 1) % len == v.frame - 1) by (nonlinear_arith)
            requires
                1 <= v.frame < len,
        ;
    }
}

/// A ping-pong animation steps on in its direction, and at either end turns
/// around: after the last frame comes the one before it, and after the first
/// the one after it.
pub proof fn lemma_ping_pong_bounces<S>(v: SpriteView<S>, animation: SpriteAnimation<S>)
    requires
        animation.mode == AnimationMode::PingPong,
        2 <= animation.frames@.len(),
        v.frame < animation.frames@.len(),
        v.frame < i32::MAX,
    ensures
        v.direction == AnimationDirection::Forward ==> step_frame(v, animation) == if v.frame + 1
            < animation.frames@.len() {
            Some(((v.frame + 1) as usize, AnimationDirection::Forward))
        } else {
            Some(((animation.frames@.len() - 2) as usize, AnimationDirection::Reverse))
        },
        v.direction == AnimationDirection::Reverse ==> step_frame(v, animation) == if v.frame >= 1 {
            Some(((v.frame - 1) as usize, AnimationDirection::Reverse))
        } else {
            Some((1usize, AnimationDirection::Forward))
        },
{
    assert((v.frame as i32) as int == v.frame);
}

/// Whether `v` plays an animation of at most `i32::MAX` frames, none of
/// which lasts zero time, from a frame inside it, in a direction that suits
/// its mode.
pub open spec fn plays_well<S>(v: SpriteView<S>) -> bool {
    current_animation(v) matches Some(a) && {
        &&& direction_suits(v.direction, a.mode)
        &&& v.frame < a.frames@.len() <= i32::MAX
        &&& forall|i: int|
            0 <= i < a.frames@.len() ==> (#[trigger] a.frames@[i].duration matches Some(d) ==> d@ > 0)
    }
}

/// One step from a state that plays well lands in a state that plays well.
proof fn lemma_step_plays_well<S>(v: SpriteView<S>)
    requires
        plays_well(v),
    ensures
        step_frame(v, current_animation(v).unwrap()) matches Some(next) && plays_well(
            SpriteView { frame: next.0, direction: next.1, ..v },
        ),
{
    let a = current_animation(v).unwrap();
    let len = a.frames@.len() as int;
    match a.mode {
        AnimationMode::Forward => lemma_forward_cycles(v, a),
        AnimationMode::Reverse => lemma_reverse_cycles(v, a),
        AnimationMode::PingPong => {
            assert((v.frame as i32) as int == v.frame);
            if len >= 2 {
                lemma_ping_pong_bounces(v, a);
            }
        },
    }
    assert(0 <= (v.frame + 1) % len < len) by (nonlinear_arith)
        requires
            len >= 1,
    ;
    assert(0 <= (v.frame + len - 1) % len < len) by (nonlinear_arith)
        requires
            len >= 1,
            v.frame >= 0,
    ;
    let next = step_frame(v, a).unwrap();
    let w = SpriteView { frame: next.0, direction: next.1, ..v };
    assert(current_animation(w) == Some(a));
}

/// Moving on from a state that plays well succeeds and ends in a state that
/// plays well, with the same animations and tag.
proof fn lemma_advanced_plays_well<S>(v: SpriteView<S>)
    requires
        plays_well(v),
    ensures
        advanced(v) matches Some(w) && plays_well(w) && w.animations == v.animations && w.tag == v.tag,
    decreases v.elapsed,
{
    let a = current_animation(v).unwrap();
    match a.frames@[v.frame as int].duration {
        Some(d) => {
            if v.elapsed > d@ {
                lemma_step_plays_well(v);
                let next = step_frame(v, a).unwrap();
                let w = SpriteView {
                    elapsed: (v.elapsed - d@) as nat,
                    frame: next.0,
                    direction: next.1,
                    ..v
                };
                assert(current_animation(w) == Some(a));
                lemma_advanced_plays_well(w);
            }
        },
        None => {},
    }
}

/// Playing never leaves the animation: from a frame inside an animation of
/// at most `i32::MAX` frames, none lasting zero time, in a direction that
/// suits the mode, advancing by any time succeeds and keeps the frame inside
/// the animation and the direction suited to the mode.
pub proof fn lemma_playing_stays_in_bounds<S>(v: SpriteView<S>, elapsed: nat)
    requires
        plays_well(v),
        v.elapsed + elapsed <= crate::time::max_nanos(),
    ensures
        state_after_elapsed(v, Some(elapsed)) matches Some(w) && {
            &&& frame_in_bounds(w)
            &&& w.animations == v.animations
            &&& w.tag == v.tag
            &&& direction_suits(w.direction, current_animation(w).unwrap().mode)
        },
{
    let v1 = SpriteView { elapsed: v.elapsed + elapsed, ..v };
    assert(current_animation(v1) == current_animation(v));
    lemma_advanced_plays_well(v1);
}

/// A ping-pong animation of one frame stays on that frame however long it
/// plays.
pub proof fn lemma_single_frame_ping_pong_stays<S>(v: SpriteView<S>, elapsed: nat)
    requires
        current_animation(v) matches Some(a) && a.mode == AnimationMode::PingPong && a.frames@.len() == 1
            && (a.frames@[0].duration matches Some(d) ==> d@ > 0),
        v.frame == 0,
        v.elapsed + elapsed <= crate::time::max_nanos(),
    ensures
        state_after_elapsed(v, Some(elapsed)) matches Some(w) && w.frame == 0 && w.tag == v.tag,
{
    let a = current_animation(v).unwrap();
    assert(direction_suits(v.direction, a.mode));
    assert forall|i: int| 0 <= i < a.frames@.len() implies (#[trigger] a.frames@[i].duration matches Some(
        d,
    ) ==> d@ > 0) by {
        assert(i == 0);
    }
    let v1 = SpriteView { elapsed: v.elapsed + elapsed, ..v };
    assert(current_animation(v1) == current_animation(v));
    lemma_advanced_plays_well(v1);
}

} // verus!

//! Loading sprites from the JSON sheets that Aseprite exports.
//!
//! The sheet is read in the Hash export format: `frames` is an object whose
//! keys name the frames, and each name ends in the frame's number, after an
//! underscore or a space and before the extension (`{tag}_{frame}.{extension}`).

use vstd::prelude::*;
use vstd::string::{StrSliceExecFns, StringExecFns};

use crate::ext::VecExt;
use crate::json::{
    json_get, json_string, json_unsigned, object_get, object_lookup, parse_unsigned,
    parse_unsigned_range, JsonEntry, JsonValue,
};
use crate::math::{Point, Rect, Size, UPixels};
use crate::sprite::{
    AnimationDirection, AnimationMode, FrameParseError, FrameTagError, Sprite, SpriteAnimation,
    SpriteAnimations, SpriteFrame, SpriteParseError, SpriteView,
};
use crate::time::Duration;

verus! {

/// A region of a texture, used as the source of a sprite frame.
#[derive(Debug, Copy)]
pub struct TextureRegion<T> {
    /// The region, in pixels.
    pub region: Rect<UPixels>,
    /// The texture the region lies in.
    pub texture: T,
}

impl<T: Copy> Clone for TextureRegion<T> {
    fn clone(&self) -> (r: Self)
        ensures
            r == *self,
    {
        *self
    }
}

impl<T> TextureRegion<T> {
    /// A reference to `texture` that only draws `region` of it.
    pub fn new(texture: T, region: Rect<UPixels>) -> (r: Self)
        ensures
            r.texture == texture,
            r.region == region,
    {
        TextureRegion { region, texture }
    }

    /// The size of the region drawn.
    pub fn size(&self) -> (r: Size<UPixels>)
        ensures
            r == self.region.size,
    {
        self.region.size
    }
}

/// A frame loaded from a sheet whose texture is `T`.
pub type SheetFrame<T> = SpriteFrame<TextureRegion<T>>;

/// Whether `c` separates the fields of a frame name.
pub open spec fn is_separator(c: char) -> bool {
    c == '_' || c == ' '
}

/// The length of the name in a frame key: the characters before its first
/// `.`.
pub open spec fn name_len(key: Seq<char>) -> nat
    decreases key.len(),
{
    if key.len() == 0 {
        0
    } else if key[0] == '.' {
        0
    } else {
        1 + name_len(key.drop_first())
    }
}

/// Where the last field of a frame name starts: just after its last `_` or
/// space.
pub open spec fn last_field_start(name: Seq<char>) -> nat
    decreases name.len(),
{
    if name.len() == 0 {
        0
    } else if is_separator(name.last()) {
        name.len()
    } else {
        last_field_start(name.drop_last())
    }
}

/// The frame number in a frame key: the last field of its name, read as a
/// `usize`.
pub open spec fn frame_number(key: Seq<char>) -> Option<int> {
    let name = key.take(name_len(key) as int);
    parse_unsigned(name.skip(last_field_start(name) as int), usize::MAX as int)
}

/// Reading the field `key` of a frame's region: `None` where the field is
/// missing (reading it panics), `Some(None)` where it is not a `u32`.
pub open spec fn region_field(rect: JsonValue, key: Seq<char>) -> Option<Option<u32>> {
    match json_get(rect, key) {
        None => None,
        Some(value) => Some(
            match json_unsigned(value, u32::MAX as int) {
                Some(n) => Some(n as u32),
                None => None,
            },
        ),
    }
}

/// Whether a whole-pixel value can be held in `UPx`, which stores four units
/// to a pixel in a `u32`.
pub open spec fn upx_representable(v: u32) -> bool {
    v <= u32::MAX / 4
}

/// The region a frame's `frame` value describes, reading `x`, `y`, `w` and
/// `h` in turn; `None` where reading a missing field panics, and where
/// turning a value into `UPx` overflows.
pub open spec fn frame_region(rect: JsonValue) -> Option<Result<Rect<UPixels>, FrameParseError>> {
    match region_field(rect, "x"@) {
        None => None,
        Some(None) => Some(Err(FrameParseError::X)),
        Some(Some(x)) => match region_field(rect, "y"@) {
            None => None,
            Some(None) => Some(Err(FrameParseError::Y)),
            Some(Some(y)) => match region_field(rect, "w"@) {
                None => None,
                Some(None) => Some(Err(FrameParseError::Width)),
                Some(Some(w)) => match region_field(rect, "h"@) {
                    None => None,
                    Some(None) => Some(Err(FrameParseError::Height)),
                    Some(Some(h)) => if upx_representable(x) && upx_representable(y)
                        && upx_representable(w) && upx_representable(h) {
                        Some(
                            Ok(
                                Rect {
                                    origin: Point { x: UPixels(x), y: UPixels(y) },
                                    size: Size { width: UPixels(w), height: UPixels(h) },
                                },
                            ),
                        )
                    } else {
                        None
                    },
                },
            },
        },
    }
}

/// The duration of a frame in milliseconds, when present and a `u64`.
pub open spec fn frame_millis(value: JsonValue) -> Option<int> {
    match json_get(value, "duration"@) {
        Some(duration) => json_unsigned(duration, u64::MAX as int),
        None => None,
    }
}

/// The frame described by the entry `key`: `value` of a sheet's `frames`,
/// with its number; `None` where reading it panics.
pub open spec fn parsed_frame<T>(key: Seq<char>, value: JsonValue, texture: T) -> Option<
    Result<(usize, SheetFrame<T>), FrameParseError>,
> {
    match frame_number(key) {
        None => Some(Err(FrameParseError::NotNumeric)),
        Some(number) => match frame_millis(value) {
            None => Some(Err(FrameParseError::Duration)),
            Some(millis) => match json_get(value, "frame"@) {
                None => Some(Err(FrameParseError::MissingRegion)),
                Some(rect) => match frame_region(rect) {
                    None => None,
                    Some(Err(error)) => Some(Err(error)),
                    Some(Ok(region)) => Some(
                        Ok(
                            (
                                number as usize,
                                SpriteFrame {
                                    source: TextureRegion { region, texture },
                                    duration: Some(Duration::spec_from_millis(millis as u64)),
                                },
                            ),
                        ),
                    ),
                },
            },
        },
    }
}

/// The frames of a sheet's `frames` entries, by number; a later frame
/// replaces an earlier one with the same number. The first failing entry
/// gives the error; `None` where reading an entry panics.
pub open spec fn parsed_frames<T>(entries: Seq<JsonEntry>, texture: T) -> Option<
    Result<Map<usize, SheetFrame<T>>, SpriteParseError>,
>
    decreases entries.len(),
{
    if entries.len() == 0 {
        Some(Ok(Map::empty()))
    } else {
        match parsed_frames(entries.drop_last(), texture) {
            Some(Ok(frames)) => {
                let entry = entries.last();
                match parsed_frame(entry.key@, entry.value, texture) {
                    None => None,
                    Some(Err(error)) => Some(Err(SpriteParseError::Frame { key: entry.key, error })),
                    Some(Ok((number, frame))) => Some(Ok(frames.insert(number, frame))),
                }
            },
            earlier => earlier,
        }
    }
}

/// The animation mode a tag's `direction` names.
pub open spec fn direction_mode(direction: Seq<char>) -> Option<AnimationMode> {
    if direction == "forward"@ {
        Some(AnimationMode::Forward)
    } else if direction == "reverse"@ {
        Some(AnimationMode::Reverse)
    } else if direction == "pingpong"@ {
        Some(AnimationMode::PingPong)
    } else {
        None
    }
}

/// The name that Aseprite writes for a tag played in `mode`.
pub open spec fn direction_name(mode: AnimationMode) -> Seq<char> {
    match mode {
        AnimationMode::Forward => "forward"@,
        AnimationMode::Reverse => "reverse"@,
        AnimationMode::PingPong => "pingpong"@,
    }
}

/// Each mode is read back from its own name, and a direction that names a
/// mode is that mode's name: "forward" plays forward, "reverse" in reverse
/// and "pingpong" back and forth, and no two names share a mode.
pub proof fn lemma_direction_names(mode: AnimationMode, direction: Seq<char>)
    ensures
        direction_mode(direction_name(mode)) == Some(mode),
        direction_mode(direction) matches Some(named) ==> direction == direction_name(named),
{
    reveal_strlit("forward");
    reveal_strlit("reverse");
    reveal_strlit("pingpong");
    // the three names differ in their first letter
    assert("reverse"@[0] != "forward"@[0]);
    assert("pingpong"@[0] != "forward"@[0]);
    assert("pingpong"@[0] != "reverse"@[0]);
}

/// Whether `frames` holds every number from `from` to `to`, both included.
pub open spec fn has_frames<F>(frames: Map<usize, F>, from: int, to: int) -> bool {
    forall|i: int| from <= i <= to ==> #[trigger] frames.dom().contains(i as usize)
}

/// The frames numbered `from` to `to`, both included.
pub open spec fn frames_between<F>(frames: Map<usize, F>, from: int, to: int) -> Seq<F> {
    if from <= to {
        Seq::new((to - from + 1) as nat, |k: int| frames[(from + k) as usize])
    } else {
        Seq::empty()
    }
}

/// The animation a `frameTags` entry describes: its name, frames and mode;
/// `Ok(None)` where its name is not a string, and `None` where reading a
/// missing field panics.
pub open spec fn parsed_tag<F>(tag: JsonValue, frames: Map<usize, F>) -> Option<
    Result<Option<(String, Seq<F>, AnimationMode)>, SpriteParseError>,
> {
    match json_get(tag, "name"@) {
        None => None,
        Some(JsonValue::String(name)) => match json_get(tag, "direction"@) {
            None => None,
            Some(direction) => match json_string(direction) {
                None => Some(
                    Err(SpriteParseError::FrameTag { name, error: FrameTagError::DirectionMissing }),
                ),
                Some(direction) => match direction_mode(direction) {
                    None => Some(
                        Err(SpriteParseError::FrameTag { name, error: FrameTagError::DirectionUnknown }),
                    ),
                    Some(mode) => match json_get(tag, "from"@) {
                        None => None,
                        Some(from) => match json_unsigned(from, usize::MAX as int) {
                            None => Some(
                                Err(SpriteParseError::FrameTag { name, error: FrameTagError::From }),
                            ),
                            Some(from) => match json_get(tag, "to"@) {
                                None => None,
                                Some(to) => match json_unsigned(to, usize::MAX as int) {
                                    None => Some(
                                        Err(SpriteParseError::FrameTag { name, error: FrameTagError::To }),
                                    ),
                                    Some(to) => if has_frames(frames, from, to) {
                                        Some(Ok(Some((name, frames_between(frames, from, to), mode))))
                                    } else {
                                        Some(
                                            Err(
                                                SpriteParseError::FrameTag {
                                                    name,
                                                    error: FrameTagError::InvalidFrame,
                                                },
                                            ),
                                        )
                                    },
                                },
                            },
                        },
                    },
                },
            },
        },
        Some(_) => Some(Ok(None)),
    }
}

/// The tagged animations of a sheet's `frameTags`, as frames and mode by
/// tag; a later tag replaces an earlier one of the same name. The first
/// failing tag gives the error; `None` where reading a tag panics.
pub open spec fn parsed_tags<F>(tags: Seq<JsonValue>, frames: Map<usize, F>) -> Option<
    Result<Map<Option<Seq<char>>, (Seq<F>, AnimationMode)>, SpriteParseError>,
>
    decreases tags.len(),
{
    if tags.len() == 0 {
        Some(Ok(Map::empty()))
    } else {
        match parsed_tags(tags.drop_last(), frames) {
            Some(Ok(animations)) => match parsed_tag(tags.last(), frames) {
                None => None,
                Some(Err(error)) => Some(Err(error)),
                Some(Ok(None)) => Some(Ok(animations)),
                Some(Ok(Some((name, tag_frames, mode)))) => Some(
                    Ok(animations.insert(Some(name@), (tag_frames, mode))),
                ),
            },
            earlier => earlier,
        }
    }
}

/// The checks of a sheet's `meta`: its entries, once its `size` matches
/// `size`; `None` where reading a missing field panics.
pub open spec fn sheet_meta(json: JsonValue, size: Size<UPixels>) -> Option<
    Result<Seq<JsonEntry>, SpriteParseError>,
> {
    match json_get(json, "meta"@) {
        Some(JsonValue::Object(meta)) => match object_get(meta@, "size"@) {
            None => Some(Err(SpriteParseError::SizeMissing)),
            Some(sheet_size) => match json_get(sheet_size, "w"@) {
                None => None,
                Some(w) => if json_unsigned(w, u32::MAX as int) != Some(size.width.0 as int) {
                    Some(Err(SpriteParseError::SizeMismatch))
                } else {
                    match json_get(sheet_size, "h"@) {
                        None => None,
                        Some(h) => if json_unsigned(h, u32::MAX as int) != Some(size.height.0 as int) {
                            Some(Err(SpriteParseError::SizeMismatch))
                        } else {
                            Some(Ok(meta@))
                        },
                    }
                },
            },
        },
        _ => Some(Err(SpriteParseError::Meta)),
    }
}

/// The entries of a sheet's `frames`: none when it is not an object, and
/// `None` where it is missing (reading it panics).
pub open spec fn frame_entries(json: JsonValue) -> Option<Seq<JsonEntry>> {
    match json_get(json, "frames"@) {
        None => None,
        Some(JsonValue::Object(entries)) => Some(entries@),
        Some(_) => Some(Seq::empty()),
    }
}

/// The entries of `meta.frameTags`: none when it is missing or not an array.
pub open spec fn frame_tags(meta: Seq<JsonEntry>) -> Seq<JsonValue> {
    match object_get(meta, "frameTags"@) {
        Some(JsonValue::Array(tags)) => tags@,
        _ => Seq::empty(),
    }
}

/// What loading the sheet `json` for a texture `texture` of `size` gives:
/// the frames by number and the tagged animations, or the error; `None`
/// where loading panics on a missing field or on a frame region too large
/// for `UPx`.
pub open spec fn sheet_contents<T>(json: JsonValue, texture: T, size: Size<UPixels>) -> Option<
    Result<
        (Map<usize, SheetFrame<T>>, Map<Option<Seq<char>>, (Seq<SheetFrame<T>>, AnimationMode)>),
        SpriteParseError,
    >,
> {
    match sheet_meta(json, size) {
        None => None,
        Some(Err(error)) => Some(Err(error)),
        Some(Ok(meta)) => match frame_entries(json) {
            None => None,
            Some(entries) => match parsed_frames(entries, texture) {
                None => None,
                Some(Err(error)) => Some(Err(error)),
                Some(Ok(frames)) => match parsed_tags(frame_tags(meta), frames) {
                    None => None,
                    Some(Err(error)) => Some(Err(error)),
                    Some(Ok(tagged)) => Some(Ok((frames, tagged))),
                },
            },
        },
    }
}

/// Whether `values` lists the frames of `frames` in increasing order of
/// their numbers.
pub open spec fn in_number_order<F>(frames: Map<usize, F>, values: Seq<F>) -> bool {
    exists|numbers: Seq<usize>|
        {
            &&& #[trigger] numbers.len() == values.len()
            &&& forall|i: int, j: int| 0 <= i < j < numbers.len() ==> numbers[i] < numbers[j]
            &&& forall|n: usize| frames.dom().contains(n) <==> numbers.contains(n)
            &&& forall|i: int| 0 <= i < numbers.len() ==> frames[numbers[i]] == values[i]
        }
}

/// Whether `v` is the freshly loaded sprite of a sheet with `frames` and the
/// tagged animations `tagged`: each tag plays its frames in its mode, and
/// the untagged animation plays every frame in order of number, forward.
pub open spec fn loaded_sprite<T>(
    v: SpriteView<TextureRegion<T>>,
    frames: Map<usize, SheetFrame<T>>,
    tagged: Map<Option<Seq<char>>, (Seq<SheetFrame<T>>, AnimationMode)>,
) -> bool {
    &&& v.elapsed == 0
    &&& v.tag is None
    &&& v.frame == 0
    &&& v.direction == AnimationDirection::Forward
    &&& v.animations.dom() == tagged.dom().insert(None)
    &&& forall|tag: Option<Seq<char>>|
        #[trigger] tagged.dom().contains(tag) && tag is Some ==> v.animations[tag].frames@ == tagged[tag].0
            && v.animations[tag].mode == tagged[tag].1
    &&& v.animations[None].mode == AnimationMode::Forward
    &&& in_number_order(frames, v.animations[None].frames@)
}

/// Frames by number, kept in increasing order of number.
struct FrameTable<F> {
    entries: Vec<(usize, F)>,
}

impl<F> FrameTable<F> {
    spec fn sorted(&self) -> bool {
        forall|i: int, j: int| 0 <= i < j < self.entries@.len() ==> self.entries@[i].0 < self.entries@[j].0
    }

    spec fn holds(&self, number: usize) -> bool {
        exists|i: int| 0 <= i < self.entries@.len() && self.entries@[i].0 == number
    }

    spec fn position(&self, number: usize) -> int {
        choose|i: int| 0 <= i < self.entries@.len() && self.entries@[i].0 == number
    }

    spec fn map(&self) -> Map<usize, F> {
        Map::new(|n: usize| self.holds(n), |n: usize| self.entries@[self.position(n)].1)
    }

    proof fn lemma_map_at(&self, i: int)
        requires
            self.sorted(),
            0 <= i < self.entries@.len(),
        ensures
            self.map().dom().contains(self.entries@[i].0),
            self.map()[self.entries@[i].0] == self.entries@[i].1,
    {
        let n = self.entries@[i].0;
        assert(self.holds(n));
        let j = self.position(n);
        if j < i {
            assert(self.entries@[j].0 < self.entries@[i].0);
        } else if j > i {
            assert(self.entries@[i].0 < self.entries@[j].0);
        }
    }

    fn new() -> (r: Self)
        ensures
            r.sorted(),
            r.map() == Map::<usize, F>::empty(),
    {
        let r = FrameTable { entries: Vec::new() };
        assert(r.map() =~= Map::<usize, F>::empty());
        r
    }

    fn insert(&mut self, number: usize, frame: F)
        requires
            old(self).sorted(),
        ensures
            final(self).sorted(),
            final(self).map() == old(self).map().insert(number, frame),
    {
        let ghost before = self.entries@;
        let n = self.entries.len();
        let mut i: usize = 0;
        while i < n && self.entries[i].0 < number
            invariant
                self.entries@ == before,
                n == before.len(),
                i <= n,
                forall|j: int| 0 <= j < i ==> before[j].0 < number,
            decreases n - i,
        {
            i = i + 1;
        }
        let ghost old_table = FrameTable { entries: self.entries };
        assert(old_table.entries@ == before);
        if i < n && self.entries[i].0 == number {
            self.entries.set(i, (number, frame));
            proof {
                let new_table = FrameTable { entries: self.entries };
                assert(new_table.entries@ == self.entries@);
                assert forall|k: usize| #[trigger] self.holds(k) == (old_table.holds(k) || k == number) by {
                    if old_table.holds(k) {
                        let j = old_table.position(k);
                        assert(self.entries@[j].0 == k);
                    }
                    if k == number {
                        assert(self.entries@[i as int].0 == k);
                    }
                    if self.holds(k) {
                        let j = self.position(k);
                        assert(before[j].0 == k);
                    }
                }
                assert(self.map() =~= old_table.map().insert(number, frame)) by {
                    assert forall|k: usize| #[trigger] self.map().dom().contains(k) implies self.map()[k]
                        == old_table.map().insert(number, frame)[k] by {
                        let j = self.position(k);
                        self.lemma_map_at(j);
                        if k != number {
                            old_table.lemma_map_at(j);
                        }
                    }
                }
            }
        } else {
            self.entries.insert(i, (number, frame));
            proof {
                assert forall|a: int, b: int| 0 <= a < b < self.entries@.len() implies self.entries@[a].0
                    < self.entries@[b].0 by {
                    if b < i {
                    } else if a < i && b == i {
                    } else if a < i {
                        assert(self.entries@[b] == before[b - 1]);
                        if i < n {
                            assert(before[i as int].0 <= before[b - 1].0) by {
                                if (i as int) < b - 1 {
                                    assert(before[i as int].0 < before[b - 1].0);
                                }
                            }
                        }
                    } else if a == i {
                        assert(self.entries@[b] == before[b - 1]);
                        assert(before[i as int].0 > number);
                        if (i as int) < b - 1 {
                            assert(before[i as int].0 < before[b - 1].0);
                        }
                    } else {
                        assert(self.entries@[a] == before[a - 1]);
                        assert(self.entries@[b] == before[b - 1]);
                    }
                }
                assert forall|k: usize| #[trigger] self.holds(k) == (old_table.holds(k) || k == number) by {
                    if old_table.holds(k) {
                        let j = old_table.position(k);
                        if j < i {
                            assert(self.entries@[j].0 == k);
                        } else {
                            assert(self.entries@[j + 1].0 == k);
                        }
                    }
                    if k == number {
                        assert(self.entries@[i as int].0 == k);
                    }
                    if self.holds(k) {
                        let j = self.position(k);
                        if j < i {
                            assert(before[j].0 == k);
                        } else if j > i {
                            assert(before[j - 1].0 == k);
                        }
                    }
                }
                assert(self.map() =~= old_table.map().insert(number, frame)) by {
                    assert forall|k: usize| #[trigger] self.map().dom().contains(k) implies self.map()[k]
                        == old_table.map().insert(number, frame)[k] by {
                        let j = self.position(k);
                        self.lemma_map_at(j);
                        if k != number {
                            if j < i {
                                old_table.lemma_map_at(j);
                            } else {
                                old_table.lemma_map_at(j - 1);
                            }
                        }
                    }
                }
            }
        }
    }

    fn get(&self, number: usize) -> (r: Option<&F>)
        requires
            self.sorted(),
        ensures
            r matches Some(f) ==> self.map().dom().contains(number) && self.map()[number] == *f,
            r is None ==> !self.map().dom().contains(number),
    {
        let n = self.entries.len();
        let mut i: usize = 0;
        while i < n
            invariant
                n == self.entries@.len(),
                i <= n,
                self.sorted(),
                forall|j: int| 0 <= j < i ==> self.entries@[j].0 != number,
            decreases n - i,
        {
            if self.entries[i].0 == number {
                proof {
                    self.lemma_map_at(i as int);
                }
                return Some(&self.entries[i].1);
            }
            i = i + 1;
        }
        proof {
            if self.holds(number) {
                let j = self.position(number);
                assert(self.entries@[j].0 == number);
            }
        }
        None
    }

    /// The frames in increasing order of number.
    fn into_values(self) -> (r: Vec<F>)
        requires
            self.sorted(),
        ensures
            in_number_order(self.map(), r@),
    {
        let ghost table = self;
        let ghost entries = self.entries@;
        let n = self.entries.len();
        let mut rest = self.entries.reversed();
        let mut values: Vec<F> = Vec::new();
        let mut i: usize = 0;
        while i < n
            invariant
                n == entries.len(),
                i <= n,
                rest@ == entries.subrange(i as int, n as int).reverse(),
                values@.len() == i,
                forall|j: int| 0 <= j < i ==> values@[j] == entries[j].1,
            decreases n - i,
        {
            assert(rest@.last() == entries[i as int]);
            let (_, frame) = rest.pop().unwrap();
            assert(rest@ =~= entries.subrange(i + 1, n as int).reverse());
            values.push(frame);
            i = i + 1;
        }
        let ghost numbers = entries.map_values(|e: (usize, F)| e.0);
        assert(numbers.len() == values@.len());
        assert forall|k: usize| table.map().dom().contains(k) <==> numbers.contains(k) by {
            if table.holds(k) {
                let j = table.position(k);
                assert(numbers[j] == k);
            }
            if numbers.contains(k) {
                let j = choose|j: int| 0 <= j < numbers.len() && numbers[j] == k;
                assert(entries[j].0 == k);
            }
        }
        assert forall|j: int| 0 <= j < numbers.len() implies table.map()[numbers[j]] == values@[j] by {
            table.lemma_map_at(j);
        }
        values
    }
}

proof fn lemma_name_len(key: Seq<char>, i: int)
    requires
        0 <= i <= key.len(),
        forall|j: int| 0 <= j < i ==> key[j] != '.',
        i == key.len() || key[i] == '.',
    ensures
        name_len(key) == i,
    decreases i,
{
    if i > 0 {
        let rest = key.drop_first();
        assert forall|j: int| 0 <= j < i - 1 implies rest[j] != '.' by {
            assert(rest[j] == key[j + 1]);
        }
        if i < key.len() {
            assert(rest[i - 1] == key[i]);
        }
        lemma_name_len(rest, i - 1);
    }
}

proof fn lemma_last_field_start(name: Seq<char>, i: int)
    requires
        0 <= i <= name.len(),
        forall|j: int| i <= j < name.len() ==> !is_separator(#[trigger] name[j]),
        i == 0 || is_separator(name[i - 1]),
    ensures
        last_field_start(name) == i,
    decreases name.len(),
{
    if i < name.len() {
        let rest = name.drop_last();
        assert(!is_separator(name[name.len() - 1]));
        assert forall|j: int| i <= j < rest.len() implies !is_separator(#[trigger] rest[j]) by {
            assert(rest[j] == name[j]);
        }
        if i > 0 {
            assert(rest[i - 1] == name[i - 1]);
        }
        lemma_last_field_start(rest, i);
    }
}

/// The frame number in a frame key.
fn key_frame_number(key: &String) -> (r: Option<usize>)
    ensures
        r matches Some(n) ==> frame_number(key@) == Some(n as int),
        r is None ==> frame_number(key@) is None,
{
    let text = key.as_str();
    let len = text.unicode_len();
    let mut end: usize = 0;
    while end < len && text.get_char(end) != '.'
        invariant
            len == key@.len(),
            text@ == key@,
            end <= len,
            forall|j: int| 0 <= j < end ==> key@[j] != '.',
        decreases len - end,
    {
        end = end + 1;
    }
    proof {
        lemma_name_len(key@, end as int);
    }
    let ghost name = key@.take(end as int);
    let mut start: usize = end;
    while start > 0 && text.get_char(start - 1) != '_' && text.get_char(start - 1) != ' '
        invariant
            len == key@.len(),
            text@ == key@,
            end <= len,
            start <= end,
            name == key@.take(end as int),
            forall|j: int| start <= j < end ==> !is_separator(#[trigger] name[j]),
        decreases start,
    {
        start = start - 1;
    }
    proof {
        lemma_last_field_start(name, start as int);
        assert(name.skip(start as int) =~= key@.subrange(start as int, end as int));
    }
    match parse_unsigned_range(text, start, end, usize::MAX as u64) {
        Some(n) => Some(n as usize),
        None => None,
    }
}

/// Reads the field `key` of a frame's region; `None` where the field is
/// missing.
fn read_region_field(rect: &JsonValue, key: &str) -> (r: Option<Option<u32>>)
    ensures
        r == region_field(*rect, key@),
{
    let name = String::from_str(key);
    match rect.get(&name) {
        Some(value) => Some(value.as_u32()),
        None => None,
    }
}

/// Reads the region of a frame from its `frame` value; `None` where a field
/// is missing or a value is too large for `UPx`.
fn read_region(rect: &JsonValue) -> (r: Option<Result<Rect<UPixels>, FrameParseError>>)
    ensures
        r == frame_region(*rect),
{
    let x = match read_region_field(rect, "x") {
        None => return None,
        Some(None) => return Some(Err(FrameParseError::X)),
        Some(Some(x)) => x,
    };
    let y = match read_region_field(rect, "y") {
        None => return None,
        Some(None) => return Some(Err(FrameParseError::Y)),
        Some(Some(y)) => y,
    };
    let w = match read_region_field(rect, "w") {
        None => return None,
        Some(None) => return Some(Err(FrameParseError::Width)),
        Some(Some(w)) => w,
    };
    let h = match read_region_field(rect, "h") {
        None => return None,
        Some(None) => return Some(Err(FrameParseError::Height)),
        Some(Some(h)) => h,
    };
    if x <= 0x3fff_ffff && y <= 0x3fff_ffff && w <= 0x3fff_ffff && h <= 0x3fff_ffff {
        Some(Ok(Rect::new(Point::new(UPixels(x), UPixels(y)), Size::new(UPixels(w), UPixels(h)))))
    } else {
        None
    }
}

/// Reads one entry of a sheet's `frames`: the frame's number and the frame;
/// `None` where a field of its region is missing. `frames` is the sheet's
/// `frames` value.
fn read_frame<T: Copy>(entry: &JsonEntry, texture: T, frames: &JsonValue) -> (r: Option<
    Result<(usize, SheetFrame<T>), FrameParseError>,
>)
    requires
        frames is Object,
    ensures
        r == parsed_frame(entry.key@, entry.value, texture),
{
    let number = match key_frame_number(&entry.key) {
        Some(number) => number,
        None => {
            let single = match frames {
                JsonValue::Array(all) => all.len() == 1,
                _ => false,
            };
            if single {
                0
            } else {
                return Some(Err(FrameParseError::NotNumeric));
            }
        },
    };
    let duration_key = String::from_str("duration");
    let millis = match entry.value.get(&duration_key) {
        Some(value) => value.as_u64(),
        None => None,
    };
    let duration = match millis {
        Some(millis) => Duration::from_millis(millis),
        None => return Some(Err(FrameParseError::Duration)),
    };
    let frame_key = String::from_str("frame");
    let rect = match entry.value.get(&frame_key) {
        Some(rect) => rect,
        None => return Some(Err(FrameParseError::MissingRegion)),
    };
    let region = match read_region(rect) {
        None => return None,
        Some(Err(error)) => return Some(Err(error)),
        Some(Ok(region)) => region,
    };
    Some(Ok((number, SpriteFrame { source: TextureRegion { region, texture }, duration: Some(duration) })))
}

/// Reads the `from` or `to` field of a tag; `None` where it is missing.
fn read_tag_index(tag: &JsonValue, key: &str) -> (r: Option<Option<usize>>)
    ensures
        r is None <==> json_get(*tag, key@) is None,
        r matches Some(Some(n)) ==> json_unsigned(json_get(*tag, key@).unwrap(), usize::MAX as int)
            == Some(n as int),
        r matches Some(None) ==> json_unsigned(json_get(*tag, key@).unwrap(), usize::MAX as int) is None,
{
    let name = String::from_str(key);
    match tag.get(&name) {
        Some(value) => Some(value.as_usize()),
        None => None,
    }
}

/// Reads one entry of a sheet's `frameTags`: its name and animation, or
/// `Ok(None)` when its name is not a string; `None` where a field it reads is
/// missing.
fn read_tag<T: Copy>(tag: &JsonValue, frames: &FrameTable<SheetFrame<T>>) -> (r: Option<
    Result<Option<(String, SpriteAnimation<TextureRegion<T>>)>, SpriteParseError>,
>)
    requires
        frames.sorted(),
    ensures
        r is None <==> parsed_tag(*tag, frames.map()) is None,
        r matches Some(result) ==> match parsed_tag(*tag, frames.map()).unwrap() {
            Err(e) => result == Err::<Option<(String, SpriteAnimation<TextureRegion<T>>)>, SpriteParseError>(
                e,
            ),
            Ok(None) => result matches Ok(None),
            Ok(Some((name, tag_frames, mode))) => result matches Ok(Some((n, a))) && n == name
                && a.frames@ == tag_frames && a.mode == mode,
        },
{
    let name_key = String::from_str("name");
    let name = match tag.get(&name_key) {
        None => return None,
        Some(value) => match value.as_string() {
            Some(name) => name,
            None => return Some(Ok(None)),
        },
    };
    let direction_key = String::from_str("direction");
    let direction = match tag.get(&direction_key) {
        None => return None,
        Some(value) => match value.as_string() {
            Some(direction) => direction,
            None => {
                return Some(
                    Err(
                        SpriteParseError::FrameTag {
                            name: name.clone(),
                            error: FrameTagError::DirectionMissing,
                        },
                    ),
                )
            },
        },
    };
    let forward = String::from_str("forward");
    let reverse = String::from_str("reverse");
    let pingpong = String::from_str("pingpong");
    let mode = if *direction == forward {
        AnimationMode::Forward
    } else if *direction == reverse {
        AnimationMode::Reverse
    } else if *direction == pingpong {
        AnimationMode::PingPong
    } else {
        return Some(
            Err(
                SpriteParseError::FrameTag { name: name.clone(), error: FrameTagError::DirectionUnknown },
            ),
        );
    };
    let start_frame = match read_tag_index(tag, "from") {
        None => return None,
        Some(None) => {
            return Some(
                Err(SpriteParseError::FrameTag { name: name.clone(), error: FrameTagError::From }),
            )
        },
        Some(Some(start_frame)) => start_frame,
    };
    let end_frame = match read_tag_index(tag, "to") {
        None => return None,
        Some(None) => {
            return Some(Err(SpriteParseError::FrameTag { name: name.clone(), error: FrameTagError::To }))
        },
        Some(Some(end_frame)) => end_frame,
    };
    let ghost map = frames.map();
    let ghost outcome = if has_frames(map, start_frame as int, end_frame as int) {
        Some(Ok(Some((*name, frames_between(map, start_frame as int, end_frame as int), mode))))
    } else {
        Some(Err(SpriteParseError::FrameTag { name: *name, error: FrameTagError::InvalidFrame }))
    };
    assert(parsed_tag(*tag, map) == outcome);
    let mut animation_frames: Vec<SheetFrame<T>> = Vec::new();
    if start_frame <= end_frame {
        let mut i = start_frame;
        loop
            invariant_except_break
                animation_frames@ == frames_between(map, start_frame as int, i - 1),
                has_frames(map, start_frame as int, i - 1),
            invariant
                start_frame <= i <= end_frame,
                map == frames.map(),
                frames.sorted(),
                parsed_tag(*tag, map) == outcome,
                outcome == (if has_frames(map, start_frame as int, end_frame as int) {
                    Some(Ok(Some((*name, frames_between(map, start_frame as int, end_frame as int), mode))))
                } else {
                    Some(Err(SpriteParseError::FrameTag { name: *name, error: FrameTagError::InvalidFrame }))
                }),
            ensures
                animation_frames@ == frames_between(map, start_frame as int, end_frame as int),
                has_frames(map, start_frame as int, end_frame as int),
            decreases end_frame - i,
        {
            let frame = match frames.get(i) {
                Some(frame) => frame,
                None => {
                    assert(!has_frames(map, start_frame as int, end_frame as int)) by {
                        assert(!map.dom().contains((i as int) as usize));
                    }
                    return Some(
                        Err(
                            SpriteParseError::FrameTag {
                                name: name.clone(),
                                error: FrameTagError::InvalidFrame,
                            },
                        ),
                    )
                },
            };
            let copy = frame.clone();
            assert(copy == *frame);
            animation_frames.push(copy);
            assert(animation_frames@ =~= frames_between(map, start_frame as int, i as int));
            if i == end_frame {
                break;
            }
            i = i + 1;
        }
    }
    Some(Ok(Some((name.clone(), SpriteAnimation::new(animation_frames).with_mode(mode)))))
}

/// Once reading the first `k` entries has panicked or failed, reading more
/// entries ends the same way.
proof fn lemma_frames_prefix<T>(entries: Seq<JsonEntry>, texture: T, k: int, n: int)
    requires
        0 <= k <= n <= entries.len(),
    ensures
        parsed_frames(entries.take(k), texture) is None ==> parsed_frames(entries.take(n), texture) is None,
        parsed_frames(entries.take(k), texture) matches Some(Err(e)) ==> parsed_frames(
            entries.take(n),
            texture,
        ) == Some(Err::<Map<usize, SheetFrame<T>>, SpriteParseError>(e)),
    decreases n - k,
{
    if k < n {
        lemma_frames_prefix(entries, texture, k, n - 1);
        assert(entries.take(n).drop_last() =~= entries.take(n - 1));
    }
}

/// Once reading the first `k` tags has panicked or failed, reading more tags
/// ends the same way.
proof fn lemma_tags_prefix<F>(tags: Seq<JsonValue>, frames: Map<usize, F>, k: int, n: int)
    requires
        0 <= k <= n <= tags.len(),
    ensures
        parsed_tags(tags.take(k), frames) is None ==> parsed_tags(tags.take(n), frames) is None,
        parsed_tags(tags.take(k), frames) matches Some(Err(e)) ==> parsed_tags(tags.take(n), frames)
            == Some(Err::<Map<Option<Seq<char>>, (Seq<F>, AnimationMode)>, SpriteParseError>(e)),
    decreases n - k,
{
    if k < n {
        lemma_tags_prefix(tags, frames, k, n - 1);
        assert(tags.take(n).drop_last() =~= tags.take(n - 1));
    }
}

/// Whether the animations `animations` are the tagged animations `tagged`:
/// the same tags, each with the same frames and mode.
pub open spec fn animations_match<S>(
    animations: Map<Option<Seq<char>>, SpriteAnimation<S>>,
    tagged: Map<Option<Seq<char>>, (Seq<SpriteFrame<S>>, AnimationMode)>,
) -> bool {
    &&& animations.dom() == tagged.dom()
    &&& forall|tag: Option<Seq<char>>|
        #[trigger] tagged.dom().contains(tag) ==> animations[tag].frames@ == tagged[tag].0
            && animations[tag].mode == tagged[tag].1
}

impl<T: Copy> Sprite<TextureRegion<T>> {
    /// Loads a sprite from a sheet in the JSON export format of
    /// [Aseprite](https://www.aseprite.org/), for the texture `texture` of
    /// `texture_size`, as [`Sprite::load_aseprite_json`] does; returns `None`
    /// where a field that loading reads without checking is missing, or where
    /// a frame region is too large for `UPx`.
    pub fn load_aseprite_json_checked(json: &JsonValue, texture: T, texture_size: Size<UPixels>) -> (r:
        Option<Result<Self, SpriteParseError>>)
        ensures
            r is None <==> sheet_contents(*json, texture, texture_size) is None,
            r matches Some(result) ==> match sheet_contents(*json, texture, texture_size).unwrap() {
                Err(e) => result == Err::<Self, SpriteParseError>(e),
                Ok((frames, tagged)) => result matches Ok(sprite) && loaded_sprite(sprite@, frames, tagged),
            },
    {
        let meta_key = String::from_str("meta");
        let meta = match json.get(&meta_key) {
            Some(JsonValue::Object(meta)) => meta,
            _ => return Some(Err(SpriteParseError::Meta)),
        };
        let size_key = String::from_str("size");
        let size = match object_lookup(meta, &size_key) {
            Some(size) => size,
            None => return Some(Err(SpriteParseError::SizeMissing)),
        };
        let width_key = String::from_str("w");
        match size.get(&width_key) {
            None => return None,
            Some(width) => match width.as_u32() {
                Some(width) if width == texture_size.width.0 => {},
                _ => return Some(Err(SpriteParseError::SizeMismatch)),
            },
        }
        let height_key = String::from_str("h");
        match size.get(&height_key) {
            None => return None,
            Some(height) => match height.as_u32() {
                Some(height) if height == texture_size.height.0 => {},
                _ => return Some(Err(SpriteParseError::SizeMismatch)),
            },
        }
        assert(sheet_meta(*json, texture_size) == Some(Ok::<Seq<JsonEntry>, SpriteParseError>(meta@)));

        let frames_key = String::from_str("frames");
        let frames_value = match json.get(&frames_key) {
            Some(frames_value) => frames_value,
            None => return None,
        };
        let ghost entries = frame_entries(*json).unwrap();
        let mut frames: FrameTable<SheetFrame<T>> = FrameTable::new();
        if let JsonValue::Object(frame_list) = frames_value {
            let n = frame_list.len();
            let mut i: usize = 0;
            assert(entries.take(0) =~= Seq::<JsonEntry>::empty());
            while i < n
                invariant
                    sheet_meta(*json, texture_size) == Some(Ok::<Seq<JsonEntry>, SpriteParseError>(meta@)),
                    frame_entries(*json) == Some(entries),
                    entries == frame_list@,
                    *frames_value == JsonValue::Object(*frame_list),
                    n == entries.len(),
                    i <= n,
                    frames.sorted(),
                    parsed_frames(entries.take(i as int), texture) == Some(
                        Ok::<Map<usize, SheetFrame<T>>, SpriteParseError>(frames.map()),
                    ),
                decreases n - i,
            {
                let entry = &frame_list[i];
                proof {
                    assert(entries.take(i + 1).drop_last() =~= entries.take(i as int));
                    assert(entries.take(i + 1).last() == entries[i as int]);
                    assert(entries.take(n as int) =~= entries);
                    lemma_frames_prefix(entries, texture, i + 1, n as int);
                }
                match read_frame(entry, texture, frames_value) {
                    None => return None,
                    Some(Ok((number, frame))) => {
                        frames.insert(number, frame);
                    },
                    Some(Err(error)) => {
                        return Some(Err(SpriteParseError::Frame { key: entry.key.clone(), error }));
                    },
                }
                i = i + 1;
            }
            assert(entries.take(n as int) =~= entries);
        } else {
            assert(entries.take(0) =~= entries);
        }
        let ghost frame_map = frames.map();
        assert(parsed_frames(entries, texture) == Some(
            Ok::<Map<usize, SheetFrame<T>>, SpriteParseError>(frame_map),
        ));

        let ghost tags = frame_tags(meta@);
        let mut animations = SpriteAnimations::empty();
        let tags_key = String::from_str("frameTags");
        if let Some(JsonValue::Array(tag_list)) = object_lookup(meta, &tags_key) {
            let n = tag_list.len();
            let mut i: usize = 0;
            assert(tags.take(0) =~= Seq::<JsonValue>::empty());
            assert(animations@ =~= Map::<Option<Seq<char>>, SpriteAnimation<TextureRegion<T>>>::empty());
            while i < n
                invariant
                    sheet_meta(*json, texture_size) == Some(Ok::<Seq<JsonEntry>, SpriteParseError>(meta@)),
                    frame_entries(*json) == Some(entries),
                    parsed_frames(entries, texture) == Some(
                        Ok::<Map<usize, SheetFrame<T>>, SpriteParseError>(frame_map),
                    ),
                    tags == frame_tags(meta@),
                    tags == tag_list@,
                    n == tags.len(),
                    i <= n,
                    frames.sorted(),
                    frame_map == frames.map(),
                    parsed_tags(tags.take(i as int), frame_map) matches Some(Ok(tagged)) && animations_match(
                        animations@,
                        tagged,
                    ),
                decreases n - i,
            {
                let tag = &tag_list[i];
                proof {
                    assert(tags.take(i + 1).drop_last() =~= tags.take(i as int));
                    assert(tags.take(i + 1).last() == tags[i as int]);
                    assert(tags.take(n as int) =~= tags);
                    lemma_tags_prefix(tags, frame_map, i + 1, n as int);
                }
                match read_tag(tag, &frames) {
                    None => return None,
                    Some(Ok(Some((name, animation)))) => {
                        animations.insert(Some(name), animation);
                    },
                    Some(Ok(None)) => {},
                    Some(Err(error)) => {
                        return Some(Err(error));
                    },
                }
                proof {
                    let tagged = parsed_tags(tags.take(i + 1), frame_map)->Some_0->Ok_0;
                    assert(animations_match(animations@, tagged)) by {
                        assert(animations@.dom() =~= tagged.dom());
                    }
                }
                i = i + 1;
            }
            assert(tags.take(n as int) =~= tags);
        } else {
            assert(tags.take(0) =~= tags);
            assert(animations@ =~= Map::<Option<Seq<char>>, SpriteAnimation<TextureRegion<T>>>::empty());
        }
        let ghost tagged = parsed_tags(tags, frame_map)->Some_0->Ok_0;
        assert(sheet_contents(*json, texture, texture_size) == Some(
            Ok::<
                (
                    Map<usize, SheetFrame<T>>,
                    Map<Option<Seq<char>>, (Seq<SheetFrame<T>>, AnimationMode)>,
                ),
                SpriteParseError,
            >((frame_map, tagged)),
        ));

        let all_frames = frames.into_values();
        animations.insert(None, SpriteAnimation::new(all_frames).with_mode(AnimationMode::Forward));
        let sprite = Sprite::new(animations);
        assert(sprite@.animations.dom() =~= tagged.dom().insert(None));
        Some(Ok(sprite))
    }

    /// Parses `raw` as JSON and loads a sprite from the sheet it holds, as
    /// [`Sprite::load_aseprite_json_checked`] does: text that is not valid
    /// JSON gives [`SpriteParseError::Json`], and `None` stands where loading
    /// the parsed sheet panics.
    pub fn load_aseprite_json_text(raw: &str, texture: T, texture_size: Size<UPixels>) -> (r: Option<
        Result<Self, SpriteParseError>,
    >)
        ensures
            crate::json::parsed_json(raw@) is None ==> r matches Some(Err(SpriteParseError::Json(_))),
            crate::json::parsed_json(raw@) matches Some(json) ==> {
                &&& r is None <==> sheet_contents(json, texture, texture_size) is None
                &&& r matches Some(result) ==> match sheet_contents(json, texture, texture_size).unwrap() {
                    Err(e) => result == Err::<Self, SpriteParseError>(e),
                    Ok((frames, tagged)) => result matches Ok(sprite) && loaded_sprite(sprite@, frames, tagged),
                }
            },
    {
        match crate::json::parse_json(raw) {
            Err(error) => Some(Err(SpriteParseError::Json(error))),
            Ok(json) => Self::load_aseprite_json_checked(&json, texture, texture_size),
        }
    }

    /// Loads a sprite from a sheet in the JSON export format of
    /// [Aseprite](https://www.aseprite.org/), for the texture `texture` of
    /// `texture_size`.
    ///
    /// The sheet must be exported with the Hash option (the default), with
    /// spaces or underscores between the fields of each frame name and the
    /// frame number as the last field before the extension, e.g.
    /// `{tag}_{frame}.{extension}`.
    ///
    /// Each tag of `meta.frameTags` becomes an animation under its name, and
    /// the untagged animation plays every frame in order of number.
    ///
    /// Returns an error when the sheet does not have the expected form.
    pub fn load_aseprite_json(json: &JsonValue, texture: T, texture_size: Size<UPixels>) -> (r: Result<
        Self,
        SpriteParseError,
    >)
        requires
            sheet_contents(*json, texture, texture_size) is Some,
        ensures
            match sheet_contents(*json, texture, texture_size).unwrap() {
                Err(e) => r == Err::<Self, SpriteParseError>(e),
                Ok((frames, tagged)) => r matches Ok(sprite) && loaded_sprite(sprite@, frames, tagged),
            },
    {
        Self::load_aseprite_json_checked(json, texture, texture_size).unwrap()
    }
}

} // verus!

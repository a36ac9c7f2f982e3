//! Sprite sheets: textures divided into a grid of equally sized tiles, and
//! collections of sprites looked up by tile.

use vstd::prelude::*;

use crate::math::{Point, Rect, Size, UPixels};
use crate::sprite::aseprite::TextureRegion;

verus! {

/// The value stored last under `key` in `entries`, as a map that each entry
/// in turn is inserted into would hold it.
pub open spec fn latest<K, V>(entries: Seq<(K, V)>, key: K) -> Option<V>
    decreases entries.len(),
{
    if entries.len() == 0 {
        None
    } else if entries.last().0 == key {
        Some(entries.last().1)
    } else {
        latest(entries.drop_last(), key)
    }
}

/// Whether `==` on `T` compares values: the condition under which lookups by
/// tile are stated.
pub open spec fn compares_values<T: PartialEq>() -> bool {
    vstd::laws_eq::obeys_concrete_eq::<T>()
}

/// The value stored last under a key that `==` finds equal to `key` in
/// `entries`: the value stored last under `key` itself where `==` on `K`
/// compares values.
fn find_latest<'a, K: PartialEq, V>(entries: &'a Vec<(K, V)>, key: &K) -> (r: Option<&'a V>)
    ensures
        compares_values::<K>() ==> (r matches Some(v) ==> latest(entries@, *key) == Some(*v)),
        compares_values::<K>() ==> (r is None ==> latest(entries@, *key) is None),
{
    proof {
        reveal(vstd::laws_eq::obeys_concrete_eq);
    }
    let mut i = entries.len();
    assert(entries@.take(i as int) =~= entries@);
    while i > 0
        invariant
            i <= entries@.len(),
            compares_values::<K>() ==> latest(entries@, *key) == latest(entries@.take(i as int), *key),
        decreases i,
    {
        let ghost prefix = entries@.take(i as int);
        assert(prefix.last() == entries@[i - 1]);
        assert(prefix.drop_last() =~= entries@.take(i - 1));
        proof {
            reveal(vstd::laws_eq::obeys_concrete_eq);
        }
        if entries[i - 1].0 == *key {
            return Some(&entries[i - 1].1);
        }
        i = i - 1;
    }
    None
}

/// Where the tile at `index` of a sheet `columns` tiles wide lies, with
/// tiles `tile` large spaced by `gutter`: read left to right, then top to
/// bottom. The index counts modulo 2^32.
pub open spec fn tile_region(index: int, columns: int, tile: Size<UPixels>, gutter: Size<UPixels>) -> Rect<
    UPixels,
> {
    let i = (index as u32) as int;
    let row = i / columns;
    let column = i - row * columns;
    Rect {
        origin: Point {
            x: UPixels((column * (tile.width.0 + gutter.width.0)) as u32),
            y: UPixels((row * (tile.height.0 + gutter.height.0)) as u32),
        },
        size: tile,
    }
}

/// Whether the tile at `index` can be placed with `UPx` arithmetic, which
/// holds four units to a pixel in a `u32`: the index becomes a `UPx` value,
/// and each product of two `UPx` values multiplies their units before
/// scaling back, so it must fit at sixteen times its size in pixels.
pub open spec fn tile_fits(index: int, columns: int, tile: Size<UPixels>, gutter: Size<UPixels>) -> bool {
    let i = (index as u32) as int;
    let row = i / columns;
    let column = i - row * columns;
    &&& i * 4 <= u32::MAX
    &&& row * columns * 16 <= u32::MAX
    &&& column * (tile.width.0 + gutter.width.0) * 16 <= u32::MAX
    &&& row * (tile.height.0 + gutter.height.0) * 16 <= u32::MAX
}

/// Whether `count` tiles can be laid out in a sheet `columns` tiles wide.
pub open spec fn layout_fits(count: int, columns: int, tile: Size<UPixels>, gutter: Size<UPixels>) -> bool {
    &&& columns > 0
    &&& forall|index: int| 0 <= index < count ==> #[trigger] tile_fits(index, columns, tile, gutter)
}

/// Whether a sheet of `texture_size` can be divided into tiles of
/// `tile_size` spaced by `gutter_size` with `UPx` arithmetic: the tile has
/// an area, and the tile and gutter together, and the number of tiles
/// across and down, can be held as `UPx` values.
pub open spec fn grid_fits(texture_size: Size<UPixels>, tile_size: Size<UPixels>, gutter_size: Size<UPixels>) -> bool {
    &&& tile_size.width.0 > 0
    &&& tile_size.height.0 > 0
    &&& (tile_size.width.0 + gutter_size.width.0) * 4 <= u32::MAX
    &&& (tile_size.height.0 + gutter_size.height.0) * 4 <= u32::MAX
    &&& (texture_size.width.0 / tile_size.width.0) * 4 <= u32::MAX
    &&& (texture_size.height.0 / tile_size.height.0) * 4 <= u32::MAX
}

/// A collection of sprites from a single texture, divided into a grid.
#[derive(Debug)]
pub struct SpriteSheet<T, Tex> {
    /// The source texture.
    pub texture: Tex,
    tile_size: Size<UPixels>,
    sprites: Vec<(T, Rect<UPixels>)>,
}

impl<T: Copy + PartialEq, Tex: Copy> SpriteSheet<T, Tex> {
    /// The tiles and their regions, in the order the tiles were given.
    pub closed spec fn tiles(&self) -> Seq<(T, Rect<UPixels>)> {
        self.sprites@
    }

    /// The source texture.
    pub closed spec fn spec_texture(&self) -> Tex {
        self.texture
    }

    /// The size of the tiles.
    pub closed spec fn spec_tile_size(&self) -> Size<UPixels> {
        self.tile_size
    }

    /// The region of `tile`, if the sheet holds it; a tile given twice keeps
    /// the later region.
    pub open spec fn region_of(&self, tile: T) -> Option<Rect<UPixels>> {
        latest(self.tiles(), tile)
    }

    /// A sheet dividing `texture`, of `texture_size`, into a grid of
    /// `tile_size` with `gutter_size` between rows and columns. The `tiles`
    /// are laid out left to right, then top to bottom.
    pub fn new(
        texture: Tex,
        texture_size: Size<UPixels>,
        tile_size: Size<UPixels>,
        gutter_size: Size<UPixels>,
        tiles: Vec<T>,
    ) -> (r: Self)
        requires
            grid_fits(texture_size, tile_size, gutter_size),
            tiles@.len() > 0 ==> layout_fits(
                tiles@.len() as int,
                (texture_size.width.0 / tile_size.width.0) as int,
                tile_size,
                gutter_size,
            ),
        ensures
            r.spec_texture() == texture,
            r.spec_tile_size() == tile_size,
            r.tiles().len() == tiles@.len(),
            forall|i: int|
                0 <= i < tiles@.len() ==> #[trigger] r.tiles()[i] == (
                    tiles@[i],
                    tile_region(i, (texture_size.width.0 / tile_size.width.0) as int, tile_size, gutter_size),
                ),
    {
        let columns = texture_size.width.0 / tile_size.width.0;
        let full_width = tile_size.width.0 + gutter_size.width.0;
        let full_height = tile_size.height.0 + gutter_size.height.0;
        let mut sprites: Vec<(T, Rect<UPixels>)> = Vec::new();
        let n = tiles.len();
        let mut index: usize = 0;
        while index < n
            invariant
                n == tiles@.len(),
                index <= n,
                columns == texture_size.width.0 / tile_size.width.0,
                full_width == tile_size.width.0 + gutter_size.width.0,
                full_height == tile_size.height.0 + gutter_size.height.0,
                n > 0 ==> layout_fits(n as int, columns as int, tile_size, gutter_size),
                sprites@.len() == index,
                forall|i: int|
                    0 <= i < index ==> #[trigger] sprites@[i] == (
                        tiles@[i],
                        tile_region(i, columns as int, tile_size, gutter_size),
                    ),
            decreases n - index,
        {
            let i = index as u32;
            assert(tile_fits(index as int, columns as int, tile_size, gutter_size));
            let row = i / columns;
            assert(row * columns <= i) by (nonlinear_arith)
                requires
                    row == i / columns,
                    columns > 0,
            ;
            let column = i - row * columns;
            let region = Rect::new(
                Point::new(UPixels(column * full_width), UPixels(row * full_height)),
                tile_size,
            );
            sprites.push((tiles[index], region));
            index = index + 1;
        }
        SpriteSheet { texture, tile_size, sprites }
    }

    /// The size of the tiles within this sheet.
    pub fn tile_size(&self) -> (r: Size<UPixels>)
        ensures
            r == self.spec_tile_size(),
    {
        self.tile_size
    }

    /// The sprite of `tile`, if the sheet holds it. Tiles are compared with
    /// `==`; where that compares values, the result is the tile's region.
    pub fn sprite(&self, tile: &T) -> (r: Option<TextureRegion<Tex>>)
        ensures
            r matches Some(s) ==> s.texture == self.spec_texture(),
            compares_values::<T>() ==> (r matches Some(s) ==> self.region_of(*tile) == Some(s.region)),
            compares_values::<T>() ==> (r is None ==> self.region_of(*tile) is None),
    {
        match find_latest(&self.sprites, tile) {
            Some(region) => Some(TextureRegion { region: *region, texture: self.texture }),
            None => None,
        }
    }

    /// The sprites of each of `tiles`, in order; every tile must be in the
    /// sheet.
    pub fn sprites(&self, tiles: &Vec<T>) -> (r: Vec<TextureRegion<Tex>>)
        requires
            compares_values::<T>(),
            forall|i: int| 0 <= i < tiles@.len() ==> self.region_of(#[trigger] tiles@[i]) is Some,
        ensures
            r@.len() == tiles@.len(),
            forall|i: int|
                0 <= i < tiles@.len() ==> #[trigger] r@[i] == (TextureRegion {
                    region: self.region_of(tiles@[i]).unwrap(),
                    texture: self.spec_texture(),
                }),
    {
        let mut result: Vec<TextureRegion<Tex>> = Vec::new();
        let n = tiles.len();
        let mut i: usize = 0;
        while i < n
            invariant
                n == tiles@.len(),
                i <= n,
                compares_values::<T>(),
                forall|k: int| 0 <= k < tiles@.len() ==> self.region_of(#[trigger] tiles@[k]) is Some,
                result@.len() == i,
                forall|k: int|
                    0 <= k < i ==> #[trigger] result@[k] == (TextureRegion {
                        region: self.region_of(tiles@[k]).unwrap(),
                        texture: self.spec_texture(),
                    }),
            decreases n - i,
        {
            assert(self.region_of(tiles@[i as int]) is Some);
            let sprite = self.sprite(&tiles[i]).unwrap();
            result.push(sprite);
            i = i + 1;
        }
        result
    }

    /// The sprites of each of `tiles`, as a map from tile to sprite; every
    /// tile must be in the sheet.
    pub fn sprite_map(&self, tiles: &Vec<T>) -> (r: SpriteMap<T, TextureRegion<Tex>>)
        requires
            compares_values::<T>(),
            forall|i: int| 0 <= i < tiles@.len() ==> self.region_of(#[trigger] tiles@[i]) is Some,
        ensures
            r.entries().len() == tiles@.len(),
            forall|i: int|
                0 <= i < tiles@.len() ==> #[trigger] r.entries()[i] == (
                    tiles@[i],
                    TextureRegion { region: self.region_of(tiles@[i]).unwrap(), texture: self.spec_texture() },
                ),
    {
        let sprites = self.sprites(tiles);
        let mut entries: Vec<(T, TextureRegion<Tex>)> = Vec::new();
        let n = tiles.len();
        let mut i: usize = 0;
        while i < n
            invariant
                n == tiles@.len(),
                sprites@.len() == n,
                i <= n,
                entries@.len() == i,
                forall|k: int|
                    0 <= k < n ==> #[trigger] sprites@[k] == (TextureRegion {
                        region: self.region_of(tiles@[k]).unwrap(),
                        texture: self.spec_texture(),
                    }),
                forall|k: int|
                    0 <= k < i ==> #[trigger] entries@[k] == (
                        tiles@[k],
                        TextureRegion { region: self.region_of(tiles@[k]).unwrap(), texture: self.spec_texture() },
                    ),
            decreases n - i,
        {
            entries.push((tiles[i], sprites[i]));
            i = i + 1;
        }
        SpriteMap { sprites: entries }
    }

    /// Every tile of the sheet with its sprite, as a map.
    pub fn to_sprite_map(&self) -> (r: SpriteMap<T, TextureRegion<Tex>>)
        ensures
            r.entries().len() == self.tiles().len(),
            forall|i: int|
                0 <= i < self.tiles().len() ==> #[trigger] r.entries()[i] == (
                    self.tiles()[i].0,
                    TextureRegion { region: self.tiles()[i].1, texture: self.spec_texture() },
                ),
    {
        let mut entries: Vec<(T, TextureRegion<Tex>)> = Vec::new();
        let n = self.sprites.len();
        let mut i: usize = 0;
        while i < n
            invariant
                n == self.tiles().len(),
                i <= n,
                entries@.len() == i,
                forall|k: int|
                    0 <= k < i ==> #[trigger] entries@[k] == (
                        self.tiles()[k].0,
                        TextureRegion { region: self.tiles()[k].1, texture: self.spec_texture() },
                    ),
            decreases n - i,
        {
            let (tile, region) = self.sprites[i];
            entries.push((tile, TextureRegion { region, texture: self.texture }));
            i = i + 1;
        }
        SpriteMap { sprites: entries }
    }
}

/// A collection of sprites, looked up by tile.
#[derive(Debug)]
pub struct SpriteMap<T, S> {
    sprites: Vec<(T, S)>,
}

impl<T: Copy + PartialEq, S: Copy> SpriteMap<T, S> {
    /// The tiles and their sprites in the order they were added; a tile added
    /// again replaces its earlier sprite.
    pub closed spec fn entries(&self) -> Seq<(T, S)> {
        self.sprites@
    }

    /// The sprite of `tile`, if the collection holds it.
    pub open spec fn sprite_of(&self, tile: T) -> Option<S> {
        latest(self.entries(), tile)
    }

    /// A collection holding `sprites`; a later sprite replaces an earlier one
    /// of the same tile.
    pub fn new(sprites: Vec<(T, S)>) -> (r: Self)
        ensures
            r.entries() == sprites@,
    {
        SpriteMap { sprites }
    }

    /// An empty collection.
    pub fn empty() -> (r: Self)
        ensures
            r.entries() == Seq::<(T, S)>::empty(),
    {
        SpriteMap { sprites: Vec::new() }
    }

    /// The sprite of `tile`, if the collection holds it. Tiles are compared
    /// with `==`; where that compares values, the result is the tile's
    /// sprite.
    pub fn sprite(&self, tile: &T) -> (r: Option<S>)
        ensures
            compares_values::<T>() ==> r == self.sprite_of(*tile),
    {
        match find_latest(&self.sprites, tile) {
            Some(sprite) => Some(*sprite),
            None => None,
        }
    }

    /// The sprites of each of `tiles`, in order; every tile must be in the
    /// collection.
    pub fn sprites(&self, tiles: &Vec<T>) -> (r: Vec<S>)
        requires
            compares_values::<T>(),
            forall|i: int| 0 <= i < tiles@.len() ==> self.sprite_of(#[trigger] tiles@[i]) is Some,
        ensures
            r@.len() == tiles@.len(),
            forall|i: int| 0 <= i < tiles@.len() ==> Some(#[trigger] r@[i]) == self.sprite_of(tiles@[i]),
    {
        let mut result: Vec<S> = Vec::new();
        let n = tiles.len();
        let mut i: usize = 0;
        while i < n
            invariant
                n == tiles@.len(),
                i <= n,
                compares_values::<T>(),
                forall|k: int| 0 <= k < tiles@.len() ==> self.sprite_of(#[trigger] tiles@[k]) is Some,
                result@.len() == i,
                forall|k: int| 0 <= k < i ==> Some(#[trigger] result@[k]) == self.sprite_of(tiles@[k]),
            decreases n - i,
        {
            assert(self.sprite_of(tiles@[i as int]) is Some);
            let sprite = self.sprite(&tiles[i]).unwrap();
            result.push(sprite);
            i = i + 1;
        }
        result
    }
}

impl<T: Copy + PartialEq, Tex: Copy> SpriteMap<T, TextureRegion<Tex>> {
    /// Adds every sprite of `sheet`, in the sheet's order, keyed by
    /// `converter` applied to its tile.
    pub fn add_foreign_sheet<O: Copy + PartialEq, F: Fn(O) -> T>(
        &mut self,
        sheet: &SpriteSheet<O, Tex>,
        converter: F,
    )
        requires
            forall|o: O| #[trigger] converter.requires((o,)),
        ensures
            final(self).entries().len() == old(self).entries().len() + sheet.tiles().len(),
            final(self).entries().take(old(self).entries().len() as int) == old(self).entries(),
            forall|i: int|
                0 <= i < sheet.tiles().len() ==> {
                    &&& #[trigger] converter.ensures(
                        (sheet.tiles()[i].0,),
                        final(self).entries()[old(self).entries().len() + i].0,
                    )
                    &&& final(self).entries()[old(self).entries().len() + i].1 == (TextureRegion {
                        region: sheet.tiles()[i].1,
                        texture: sheet.spec_texture(),
                    })
                },
    {
        let all = sheet.to_sprite_map();
        let ghost start = self.sprites@;
        let n = all.sprites.len();
        let mut i: usize = 0;
        while i < n
            invariant
                n == all.entries().len(),
                n == sheet.tiles().len(),
                i <= n,
                forall|o: O| #[trigger] converter.requires((o,)),
                forall|k: int|
                    0 <= k < n ==> #[trigger] all.entries()[k] == (
                        sheet.tiles()[k].0,
                        TextureRegion { region: sheet.tiles()[k].1, texture: sheet.spec_texture() },
                    ),
                self.sprites@.len() == start.len() + i,
                self.sprites@.take(start.len() as int) == start,
                forall|k: int|
                    0 <= k < i ==> {
                        &&& #[trigger] converter.ensures(
                            (sheet.tiles()[k].0,),
                            self.sprites@[start.len() + k].0,
                        )
                        &&& self.sprites@[start.len() + k].1 == (TextureRegion {
                            region: sheet.tiles()[k].1,
                            texture: sheet.spec_texture(),
                        })
                    },
            decreases n - i,
        {
            let (tile, sprite) = all.sprites[i];
            assert(all.entries()[i as int] == (tile, sprite));
            let key = converter(tile);
            let ghost before = self.sprites@;
            self.sprites.push((key, sprite));
            assert(self.sprites@.take(start.len() as int) =~= before.take(start.len() as int));
            assert forall|k: int| 0 <= k < i + 1 implies {
                &&& #[trigger] converter.ensures(
                    (sheet.tiles()[k].0,),
                    self.sprites@[start.len() + k].0,
                )
                &&& self.sprites@[start.len() + k].1 == (TextureRegion {
                    region: sheet.tiles()[k].1,
                    texture: sheet.spec_texture(),
                })
            } by {
                if k < i {
                    assert(self.sprites@[start.len() + k] == before[start.len() + k]);
                }
            }
            i = i + 1;
        }
    }

    /// A collection of every sprite of `sheet`, keyed by `converter` applied
    /// to its tile.
    pub fn from_foreign_sheet<O: Copy + PartialEq, F: Fn(O) -> T>(sheet: &SpriteSheet<O, Tex>, converter: F) -> (r:
        Self)
        requires
            forall|o: O| #[trigger] converter.requires((o,)),
        ensures
            r.entries().len() == sheet.tiles().len(),
            forall|i: int|
                0 <= i < sheet.tiles().len() ==> {
                    &&& #[trigger] converter.ensures((sheet.tiles()[i].0,), r.entries()[i].0)
                    &&& r.entries()[i].1 == (TextureRegion { region: sheet.tiles()[i].1, texture: sheet.spec_texture() })
                },
    {
        let mut map = SpriteMap::empty();
        map.add_foreign_sheet(sheet, converter);
        proof {
            assert forall|i: int| 0 <= i < sheet.tiles().len() implies {
                &&& #[trigger] converter.ensures((sheet.tiles()[i].0,), map.entries()[i].0)
                &&& map.entries()[i].1 == (TextureRegion { region: sheet.tiles()[i].1, texture: sheet.spec_texture() })
            } by {
                assert(map.entries()[0 + i] == map.entries()[i]);
            }
        }
        map
    }
}

impl<T: Copy + PartialEq, Tex: Copy> SpriteMap<T, TextureRegion<Tex>> {
    /// Adds every sprite of `sheet`, in the sheet's order, under its own tile.
    pub fn add_sheet(&mut self, sheet: &SpriteSheet<T, Tex>)
        ensures
            final(self).entries() == old(self).entries() + sheet.tiles().map_values(
                |entry: (T, Rect<UPixels>)| (entry.0, TextureRegion { region: entry.1, texture: sheet.spec_texture() }),
            ),
    {
        let ghost start = self.sprites@;
        let same_tile = |tile: T| -> (same: T)
            ensures
                same == tile,
            { tile };
        self.add_foreign_sheet(sheet, same_tile);
        assert(self.sprites@ =~= start + sheet.tiles().map_values(
            |entry: (T, Rect<UPixels>)| (entry.0, TextureRegion { region: entry.1, texture: sheet.spec_texture() }),
        )) by {
            assert forall|k: int| 0 <= k < self.sprites@.len() implies self.sprites@[k] == (start + sheet.tiles().map_values(
                |entry: (T, Rect<UPixels>)| (entry.0, TextureRegion { region: entry.1, texture: sheet.spec_texture() }),
            ))[k] by {
                if k < start.len() {
                    assert(self.sprites@.take(start.len() as int)[k] == self.sprites@[k]);
                } else {
                    let j = k - start.len();
                    assert(self.sprites@[start.len() + j] == self.sprites@[k]);
                    assert(same_tile.ensures((sheet.tiles()[j].0,), self.sprites@[start.len() + j].0));
                }
            }
        }
    }
}

/// Tiles at different places in a sheet never overlap: for any two indices
/// below 2^32 whose coordinates fit, the regions are apart horizontally or
/// vertically.
pub proof fn lemma_tiles_disjoint(i: int, j: int, columns: int, tile: Size<UPixels>, gutter: Size<UPixels>)
    requires
        0 <= i < j <= u32::MAX,
        columns > 0,
        tile.width.0 + gutter.width.0 <= u32::MAX,
        tile.height.0 + gutter.height.0 <= u32::MAX,
        tile_fits(i, columns, tile, gutter),
        tile_fits(j, columns, tile, gutter),
    ensures
        ({
            let a = tile_region(i, columns, tile, gutter);
            let b = tile_region(j, columns, tile, gutter);
            ||| a.origin.x.0 + tile.width.0 <= b.origin.x.0
            ||| b.origin.x.0 + tile.width.0 <= a.origin.x.0
            ||| a.origin.y.0 + tile.height.0 <= b.origin.y.0
            ||| b.origin.y.0 + tile.height.0 <= a.origin.y.0
        }),
{
    let fw = tile.width.0 + gutter.width.0;
    let fh = tile.height.0 + gutter.height.0;
    assert((i as u32) as int == i && (j as u32) as int == j);
    let ri = i / columns;
    let rj = j / columns;
    let ci = i - ri * columns;
    let cj = j - rj * columns;
    assert(0 <= ci < columns && 0 <= cj < columns) by (nonlinear_arith)
        requires
            ri == i / columns,
            rj == j / columns,
            ci == i - ri * columns,
            cj == j - rj * columns,
            columns > 0,
            i >= 0,
            j >= 0,
    ;
    assert(ri <= rj) by (nonlinear_arith)
        requires
            ri == i / columns,
            rj == j / columns,
            i < j,
            columns > 0,
    ;
    assert(0 <= ci * fw && 0 <= cj * fw && 0 <= ri * fh && 0 <= rj * fh) by (nonlinear_arith)
        requires
            0 <= ci,
            0 <= cj,
            0 <= ri,
            0 <= rj,
            0 <= fw,
            0 <= fh,
    ;
    if ri < rj {
        assert(ri * fh + fh <= rj * fh) by (nonlinear_arith)
            requires
                ri < rj,
                fh >= 0,
        ;
    } else {
        assert(ci != cj);
        if ci < cj {
            assert(ci * fw + fw <= cj * fw) by (nonlinear_arith)
                requires
                    ci < cj,
                    fw >= 0,
            ;
        } else {
            assert(cj * fw + fw <= ci * fw) by (nonlinear_arith)
                requires
                    cj < ci,
                    fw >= 0,
            ;
        }
    }
}

} // verus!

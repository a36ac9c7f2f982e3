use kludgine::math::{Point, Rect, Size, UPixels};
use kludgine::sprite::aseprite::TextureRegion;
use kludgine::sprite::sheet::{SpriteMap, SpriteSheet};

fn size(w: u32, h: u32) -> Size<UPixels> {
    Size::new(UPixels(w), UPixels(h))
}

fn region(x: u32, y: u32, w: u32, h: u32) -> Rect<UPixels> {
    Rect::new(Point::new(UPixels(x), UPixels(y)), size(w, h))
}

#[derive(Clone, Copy, Debug, PartialEq, Eq)]
enum Tile {
    Grass,
    Water,
    Sand,
    Rock,
}

fn sheet() -> SpriteSheet<Tile, u8> {
    // A 3-column sheet of 8x8 tiles with 2 pixels between them.
    SpriteSheet::new(
        9u8,
        size(30, 20),
        size(8, 8),
        size(2, 2),
        vec![Tile::Grass, Tile::Water, Tile::Sand, Tile::Rock],
    )
}

#[test]
fn tiles_are_laid_out_left_to_right_then_down() {
    let sheet = sheet();
    assert_eq!(sheet.tile_size(), size(8, 8));
    assert_eq!(sheet.sprite(&Tile::Grass).unwrap().region, region(0, 0, 8, 8));
    assert_eq!(sheet.sprite(&Tile::Water).unwrap().region, region(10, 0, 8, 8));
    assert_eq!(sheet.sprite(&Tile::Sand).unwrap().region, region(20, 0, 8, 8));
    assert_eq!(sheet.sprite(&Tile::Rock).unwrap().region, region(0, 10, 8, 8));
    assert_eq!(sheet.sprite(&Tile::Rock).unwrap().texture, 9);
}

#[test]
fn missing_tiles_are_not_found() {
    let sheet = SpriteSheet::new(1u8, size(16, 16), size(8, 8), size(0, 0), vec![Tile::Grass]);
    assert!(sheet.sprite(&Tile::Water).is_none());
}

#[test]
fn sprites_and_maps() {
    let sheet = sheet();
    let sprites = sheet.sprites(&vec![Tile::Sand, Tile::Grass]);
    assert_eq!(sprites[0].region, region(20, 0, 8, 8));
    assert_eq!(sprites[1].region, region(0, 0, 8, 8));
    let map = sheet.sprite_map(&vec![Tile::Water]);
    assert_eq!(map.sprite(&Tile::Water).unwrap().region, region(10, 0, 8, 8));
    assert!(map.sprite(&Tile::Grass).is_none());
    let all = sheet.to_sprite_map();
    assert_eq!(all.sprite(&Tile::Rock).unwrap().region, region(0, 10, 8, 8));
}

#[test]
fn foreign_sheets_convert_keys() {
    let sheet = sheet();
    let map: SpriteMap<u8, TextureRegion<u8>> = SpriteMap::from_foreign_sheet(&sheet, |tile| match tile {
        Tile::Grass => 1,
        Tile::Water => 2,
        Tile::Sand => 3,
        Tile::Rock => 4,
    });
    assert_eq!(map.sprite(&3).unwrap().region, region(20, 0, 8, 8));
    let mut combined: SpriteMap<Tile, TextureRegion<u8>> = SpriteMap::empty();
    combined.add_sheet(&sheet);
    assert_eq!(combined.sprites(&vec![Tile::Rock])[0].region, region(0, 10, 8, 8));
}

#[test]
fn later_entries_replace_earlier_ones() {
    let map = SpriteMap::new(vec![(1u8, 10u32), (2, 20), (1, 30)]);
    assert_eq!(map.sprite(&1), Some(30));
    assert_eq!(map.sprite(&2), Some(20));
    assert_eq!(map.sprite(&3), None);
}

#[test]
fn texture_region_reports_its_size() {
    let region = Rect::new(Point::new(UPixels(2), UPixels(3)), Size::new(UPixels(4), UPixels(5)));
    let texture_region = TextureRegion::new(9u8, region);
    assert_eq!(texture_region.size(), Size::new(UPixels(4), UPixels(5)));
    assert_eq!(texture_region.texture, 9u8);
    assert_eq!(texture_region.region, region);
}

#[test]
fn char_tiles_are_found() {
    let sheet = SpriteSheet::new(1u8, size(16, 8), size(8, 8), size(0, 0), vec!['a', 'b']);
    assert_eq!(sheet.sprite(&'b').unwrap().region.origin.x, UPixels(8));
    assert!(sheet.sprite(&'c').is_none());
}

use macroquad::text::atlas::{Atlas, SpriteKey};
use macroquad::texture::{Image, PixelRect};
use miniquad::{FilterMode, RawId, TextureId};

fn atlas(width: u16, height: u16) -> Atlas {
    let texture = TextureId::from_raw_id(RawId::OpenGl(0));
    Atlas::with_size(texture, FilterMode::Nearest, width, height)
}

fn sprite(width: u16, height: u16, color: [u8; 4]) -> Image {
    Image::gen_image_color(width, height, color)
}

fn rect(x: u16, y: u16, w: u16, h: u16) -> PixelRect {
    PixelRect { x, y, w, h }
}

const WHITE: [u8; 4] = [255, 255, 255, 255];
const RED: [u8; 4] = [255, 0, 0, 255];
const GREEN: [u8; 4] = [0, 255, 0, 255];
const BLUE: [u8; 4] = [0, 0, 255, 255];

#[test]
fn sprite_crossing_gap_at_row_edge_breaks_line_instead_of_growing() {
    let mut atlas = atlas(64, 1024);

    // 20 wide: placed at x = 2, cursor_x becomes 20 + 2 * GAP = 24
    atlas.cache_sprite(SpriteKey::Id(1), sprite(20, 10, WHITE));

    // 39 wide: the sprite would land at x = 26 and end at 65, one pixel past
    // the 64-wide texture
    atlas.cache_sprite(SpriteKey::Id(2), sprite(39, 10, WHITE));

    // the sprite must have moved to the next row, not doubled the atlas
    assert_eq!(atlas.width(), 64);
    assert_eq!(atlas.height(), 1024);
    assert_eq!(atlas.get(SpriteKey::Id(2)).map(|sprite| sprite.rect), Some(rect(2, 14, 39, 10)));

    std::mem::forget(atlas);
}

#[test]
fn sprite_ending_at_row_edge_stays_in_current_line() {
    let mut storage = std::mem::ManuallyDrop::new(atlas(64, 1024));
    let atlas = &mut *storage;

    atlas.cache_sprite(SpriteKey::Id(1), sprite(20, 10, WHITE));
    // x = 24 + GAP = 26, and x + width == 64 exactly.
    atlas.cache_sprite(SpriteKey::Id(2), sprite(38, 10, WHITE));

    assert_eq!(atlas.width(), 64);
    assert_eq!(atlas.height(), 1024);
    assert_eq!(atlas.get(SpriteKey::Id(2)).map(|sprite| sprite.rect), Some(rect(26, 0, 38, 10)));
}

#[test]
fn regrow_repacks_deterministically_and_keeps_pixels() {
    let mut atlas = atlas(64, 32);

    atlas.cache_sprite(SpriteKey::Id(1), sprite(20, 10, RED));
    atlas.cache_sprite(SpriteKey::Id(2), sprite(39, 10, GREEN));
    // 24 tall: does not fit the 32-tall atlas, forces exactly one grow
    atlas.cache_sprite(SpriteKey::Id(3), sprite(20, 24, BLUE));

    // the 64x32 atlas doubled once; tallest-first repacking puts the two
    // 10-tall sprites on row 0 (wider first) and the 24-tall one after
    // them, with no further growth
    assert_eq!((atlas.width(), atlas.height()), (128, 64));
    assert_eq!(atlas.get(SpriteKey::Id(1)).map(|sprite| sprite.rect), Some(rect(45, 0, 20, 10)));
    assert_eq!(atlas.get(SpriteKey::Id(2)).map(|sprite| sprite.rect), Some(rect(2, 0, 39, 10)));
    assert_eq!(atlas.get(SpriteKey::Id(3)).map(|sprite| sprite.rect), Some(rect(69, 0, 20, 24)));

    // regrown sprites keep their pixels
    assert_eq!(atlas.image().get_pixel(45, 0), RED);
    assert_eq!(atlas.image().get_pixel(2, 0), GREEN);
    assert_eq!(atlas.image().get_pixel(69, 0), BLUE);

    std::mem::forget(atlas);
}

fn pack(atlas: &mut Atlas) -> ((u16, u16), [Option<PixelRect>; 4], [[u8; 4]; 4]) {
    // two same-dimension sprites (20x10) next to each other
    atlas.cache_sprite(SpriteKey::Id(1), sprite(20, 10, RED));
    atlas.cache_sprite(SpriteKey::Id(2), sprite(20, 10, GREEN));
    // 24 tall: does not fit the 32-tall atlas, forces the first grow
    atlas.cache_sprite(SpriteKey::Id(3), sprite(20, 24, BLUE));
    // 60 wide x 40 tall: forces a second grow
    atlas.cache_sprite(SpriteKey::Id(4), sprite(60, 40, WHITE));

    (
        (atlas.width(), atlas.height()),
        [
            atlas.get(SpriteKey::Id(1)).map(|s| s.rect),
            atlas.get(SpriteKey::Id(2)).map(|s| s.rect),
            atlas.get(SpriteKey::Id(3)).map(|s| s.rect),
            atlas.get(SpriteKey::Id(4)).map(|s| s.rect),
        ],
        [
            atlas.image().get_pixel(2, 0),
            atlas.image().get_pixel(26, 0),
            atlas.image().get_pixel(50, 0),
            atlas.image().get_pixel(74, 0),
        ],
    )
}

#[test]
fn same_dimension_sprites_repack_in_the_same_order_in_every_atlas() {
    // independently built atlases must agree on the layout
    let mut first_atlas = atlas(64, 32);
    let first = pack(&mut first_atlas);
    for _ in 0..7 {
        let mut other = atlas(64, 32);
        assert_eq!(first, pack(&mut other));
        std::mem::forget(other);
    }

    let (size, rects, pixels) = first;
    assert_eq!(size, (256, 128));
    assert_eq!(
        rects,
        [Some(rect(26, 0, 20, 10)), Some(rect(50, 0, 20, 10)), Some(rect(2, 0, 20, 24)), Some(rect(74, 0, 60, 40)),]
    );
    // each key still owns its own pixels after the double repack
    assert_eq!(pixels, [BLUE, RED, GREEN, WHITE]);
}

#[test]
fn atlas_new_is_512_square_and_empty() {
    let atlas = Atlas::new(TextureId::from_raw_id(RawId::OpenGl(3)), FilterMode::Linear);
    assert_eq!((atlas.width(), atlas.height()), (512, 512));
    assert!(atlas.get(SpriteKey::Id(1)).is_none());
}

#[test]
fn unique_ids_count_up_from_the_offset() {
    let mut atlas = atlas(16, 16);
    let a = atlas.new_unique_id();
    let b = atlas.new_unique_id();
    assert!(matches!(a, SpriteKey::Id(100001)));
    assert!(matches!(b, SpriteKey::Id(100002)));
}

#[test]
fn recaching_a_key_keeps_one_entry_with_the_new_size() {
    let mut atlas = atlas(64, 64);
    atlas.cache_sprite(SpriteKey::Id(7), sprite(4, 4, RED));
    atlas.cache_sprite(SpriteKey::Id(7), sprite(6, 5, GREEN));
    assert_eq!(atlas.get(SpriteKey::Id(7)).map(|s| (s.rect.w, s.rect.h)), Some((6, 5)));
}

#[test]
fn texture_keys_are_told_apart_by_their_id() {
    let mut atlas = atlas(64, 64);
    let t1 = SpriteKey::Texture(TextureId::from_raw_id(RawId::OpenGl(5)));
    let t2 = SpriteKey::Texture(TextureId::from_raw_id(RawId::OpenGl(6)));
    atlas.cache_sprite(t1, sprite(3, 3, RED));
    atlas.cache_sprite(t2, sprite(4, 2, GREEN));
    assert_eq!(atlas.get(t1).map(|s| (s.rect.w, s.rect.h)), Some((3, 3)));
    assert_eq!(atlas.get(t2).map(|s| (s.rect.w, s.rect.h)), Some((4, 2)));
    let t1_again = SpriteKey::Texture(TextureId::from_raw_id(RawId::OpenGl(5)));
    assert_eq!(atlas.get(t1_again).map(|s| (s.rect.w, s.rect.h)), Some((3, 3)));
    assert!(atlas.get(SpriteKey::Texture(TextureId::from_raw_id(RawId::OpenGl(7)))).is_none());
}

#[test]
fn cached_sprites_never_overlap() {
    let mut atlas = atlas(32, 32);
    for k in 0..12u64 {
        atlas.cache_sprite(SpriteKey::Id(k), sprite(5 + (k % 4) as u16, 3 + (k % 3) as u16, WHITE));
    }
    let rects: Vec<PixelRect> = (0..12u64).map(|k| atlas.get(SpriteKey::Id(k)).unwrap().rect).collect();
    for i in 0..rects.len() {
        for j in i + 1..rects.len() {
            let (a, b) = (rects[i], rects[j]);
            let apart = a.y + a.h <= b.y || b.y + b.h <= a.y || a.x + a.w <= b.x || b.x + b.w <= a.x;
            assert!(apart, "{:?} and {:?} overlap", a, b);
        }
    }
}

#[test]
fn atlases_fed_the_same_calls_hold_the_same_image_bytes() {
    let mut a = atlas(64, 32);
    let mut b = atlas(64, 32);
    pack(&mut a);
    pack(&mut b);
    assert_eq!(a.image().bytes, b.image().bytes);
    // a pixel that no sprite covers stays transparent black
    assert_eq!(a.image().get_pixel(0, 0), [0, 0, 0, 0]);
    assert_eq!(a.image().get_pixel(255, 127), [0, 0, 0, 0]);
    std::mem::forget(a);
    std::mem::forget(b);
}

#[test]
fn cached_rect_has_the_sprite_size_and_the_atlas_doubles() {
    let mut a = atlas(16, 16);
    a.cache_sprite(SpriteKey::Id(1), sprite(40, 5, RED));
    // 40 wide needs two doublings of the 16-wide atlas
    assert_eq!((a.width(), a.height()), (64, 64));
    let r = a.get(SpriteKey::Id(1)).unwrap().rect;
    assert_eq!(r, rect(2, 0, 40, 5));
    std::mem::forget(a);
}

#[test]
fn recached_key_leaves_its_old_pixels_the_same_way_in_every_atlas() {
    let mut a = atlas(64, 64);
    let mut b = atlas(64, 64);
    for at in [&mut a, &mut b] {
        at.cache_sprite(SpriteKey::Id(1), sprite(10, 10, RED));
        at.cache_sprite(SpriteKey::Id(1), sprite(5, 5, GREEN));
    }
    assert_eq!(a.image().bytes, b.image().bytes);
    // the first rect keeps its red pixels; the key now points at the green one
    assert_eq!(a.image().get_pixel(2, 0), RED);
    assert_eq!(a.get(SpriteKey::Id(1)).map(|s| s.rect), Some(rect(16, 0, 5, 5)));
    assert_eq!(a.image().get_pixel(16, 0), GREEN);
    std::mem::forget(a);
    std::mem::forget(b);
}

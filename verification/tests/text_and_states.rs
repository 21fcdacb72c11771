use macroquad::experimental::state_machine::{State, StateMachine, StateMachineOwned, Transition, MAX_STATE};
use macroquad::text::atlas::{Atlas, SpriteKey};
use macroquad::text::{
    ascii_character_list, cache_glyph, glyph_image, latin_character_list, GlyphCache, RasterizedGlyph,
};
use miniquad::{FilterMode, RawId, TextureId};

type Machine = StateMachineOwned<&'static str, &'static str, &'static str, u32>;

#[test]
fn character_lists() {
    let ascii = ascii_character_list();
    assert_eq!(ascii.len(), 255);
    assert_eq!(ascii[65], 'A');
    assert_eq!(ascii[254], 'þ');
    let latin = latin_character_list();
    assert_eq!(latin.len(), 79);
    assert_eq!(latin[0], 'q');
    assert_eq!(latin[78], ':');
}

#[test]
fn glyph_sprites_are_white_with_coverage_alpha() {
    let img = glyph_image(2, 1, &[0, 200]);
    assert_eq!(img.bytes, vec![255, 255, 255, 0, 255, 255, 255, 200]);
    assert_eq!((img.width, img.height), (2, 1));
}

#[test]
fn glyphs_are_cached_once_per_character_and_size() {
    let mut atlas = Atlas::with_size(TextureId::from_raw_id(RawId::OpenGl(1)), FilterMode::Linear, 64, 64);
    let mut cache: GlyphCache<u8> = GlyphCache::new();
    let glyph = |w: u16, h: u16, adv: u8| RasterizedGlyph {
        width: w,
        height: h,
        offset_x: 1,
        offset_y: -2,
        advance: adv,
        bitmap: vec![9; (w * h) as usize],
    };
    cache_glyph(&mut cache, &mut atlas, 'a', 16, glyph(3, 4, 7));
    assert!(cache.contains('a', 16));
    assert!(!cache.contains('a', 17));
    let info = cache.get('a', 16).unwrap();
    assert_eq!((info.offset_x, info.offset_y, info.advance), (1, -2, 7));
    assert!(matches!(info.sprite, SpriteKey::Id(100001)));
    let rect = atlas.get(info.sprite).unwrap().rect;
    assert_eq!((rect.w, rect.h), (3, 4));
    assert_eq!(atlas.image().get_pixel(rect.x as u32, rect.y as u32), [255, 255, 255, 9]);
    // a second request for the same glyph changes nothing
    cache_glyph(&mut cache, &mut atlas, 'a', 16, glyph(5, 5, 1));
    assert_eq!(cache.get('a', 16).unwrap().advance, 7);
    cache_glyph(&mut cache, &mut atlas, 'a', 17, glyph(5, 5, 1));
    assert!(matches!(cache.get('a', 17).unwrap().sprite, SpriteKey::Id(100002)));
    assert!(cache.get('b', 16).is_none());
}

#[test]
fn requested_state_is_entered_on_update() {
    let mut m: Machine = StateMachineOwned::new();
    m.insert(1, State::new().update("u1").coroutine("c1"));
    m.insert(0, State::new().on_end("e0"));
    assert_eq!(m.state(), 0);
    let t = m.begin_update();
    assert_eq!(t, Transition { ended: None, started: None, updated: None });
    m.set_state(1);
    let t = m.begin_update();
    assert_eq!(t, Transition { ended: Some(0), started: Some(1), updated: Some(1) });
    assert_eq!(m.state(), 1);
    assert_eq!(m.state_callbacks(1).update, Some("u1"));
    m.set_active_coroutine(5);
    assert_eq!(*m.active_coroutine(), Some(5));
    // asking for the current state again runs no entry or exit callbacks
    m.set_state(1);
    assert_eq!(m.begin_update(), Transition { ended: None, started: None, updated: Some(1) });
    assert_eq!(MAX_STATE, 32);
}

#[test]
fn request_made_while_lent_out_waits_for_put_back() {
    let mut sm: StateMachine<&str, &str, &str, u32> = StateMachine::new();
    sm.add_state(2, State::new().update("u2"));
    let mut owned = sm.take();
    assert_eq!(sm.state(), 0);
    sm.set_state(2);
    assert_eq!(owned.begin_update().updated, None);
    sm.put_back(owned);
    assert_eq!(sm.state(), 0);
    let mut owned = sm.take();
    assert_eq!(owned.begin_update().updated, Some(2));
    assert_eq!(owned.state(), 2);
    sm.put_back(owned);
    assert_eq!(sm.state(), 2);
}

#[test]
fn pending_state_is_the_last_request() {
    let mut m: Machine = StateMachineOwned::new();
    assert_eq!(m.pending_state(), None);
    m.set_state(3);
    m.set_state(4);
    assert_eq!(m.pending_state(), Some(4));
    m.begin_update();
    assert_eq!((m.pending_state(), m.state()), (None, 4));
}

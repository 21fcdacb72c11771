//! Glyph caching for fonts: rasterized glyphs are stored in the sprite atlas and
//! found again by character and size.
use vstd::prelude::*;
use vstd::string::*;
use crate::chars::chars_of;
use crate::texture::{Image, pix};
pub mod atlas;
use atlas::{Atlas, SpriteKey, cache_spec};

verus! {

/// Where a cached glyph is drawn from and how it sits on the line; `A` is the
/// type of its advance width.
#[derive(Debug, Clone, Copy)]
pub struct CharacterInfo<A> {
    pub offset_x: i32,
    pub offset_y: i32,
    pub advance: A,
    pub sprite: SpriteKey,
}

/// A glyph as the rasterizer made it: its size, its offsets, its advance and one
/// coverage byte per pixel.
pub struct RasterizedGlyph<A> {
    pub width: u16,
    pub height: u16,
    pub offset_x: i32,
    pub offset_y: i32,
    pub advance: A,
    pub bitmap: Vec<u8>,
}

/// The characters of codes 0 to 254.
pub fn ascii_character_list() -> (r: Vec<char>)
    ensures
        r@.len() == 255,
        forall|i: int| 0 <= i < 255 ==> #[trigger] r@[i] == (i as u8) as char,
{
    let mut r: Vec<char> = Vec::new();
    let mut k: u8 = 0;
    while k < 255
        invariant
            r@.len() == k,
            forall|i: int| 0 <= i < k ==> #[trigger] r@[i] == (i as u8) as char,
        decreases 255 - k,
    {
        r.push(k as char);
        k = k + 1;
    }
    r
}

/// The latin letters, digits and common punctuation.
pub open spec fn latin_characters() -> Seq<char> {
    "qwertyuiopasdfghjklzxcvbnmQWERTYUIOPASDFGHJKLZXCVBNM1234567890!@#$%^&*(){}[].,:"@
}

/// List of latin characters
pub fn latin_character_list() -> (r: Vec<char>)
    ensures
        r@ == latin_characters(),
{
    chars_of("qwertyuiopasdfghjklzxcvbnmQWERTYUIOPASDFGHJKLZXCVBNM1234567890!@#$%^&*(){}[].,:")
}

/// The sprite of a glyph: white pixels whose alpha is the coverage.
pub fn glyph_image(width: u16, height: u16, coverage: &[u8]) -> (i: Image)
    requires
        coverage@.len() == width as int * height as int,
    ensures
        i.wf(),
        i.width == width,
        i.height == height,
        forall|p: int| 0 <= p < coverage@.len() ==> #[trigger] pix(i.bytes@, p) == seq![255u8, 255u8, 255u8, coverage@[p]],
{
    let n = coverage.len();
    proof {
        assert(n * 4 <= 65535 * 65535 * 4) by (nonlinear_arith)
            requires
                n == width as int * height as int,
                width <= 65535,
                height <= 65535,
        ;
    }
    let mut bytes: Vec<u8> = Vec::new();
    let mut k: usize = 0;
    while k < n
        invariant
            n == coverage@.len(),
            n * 4 <= 65535 * 65535 * 4,
            0 <= k <= n,
            bytes@.len() == 4 * k,
            forall|p: int| 0 <= p < k ==> #[trigger] pix(bytes@, p) == seq![255u8, 255u8, 255u8, coverage@[p]],
        decreases n - k,
    {
        let ghost before = bytes@;
        bytes.push(255);
        bytes.push(255);
        bytes.push(255);
        bytes.push(coverage[k]);
        proof {
            assert forall|p: int| 0 <= p < k + 1 implies #[trigger] pix(bytes@, p) == seq![255u8, 255u8, 255u8, coverage@[p]] by {
                if p < k {
                    assert(pix(bytes@, p) =~= pix(before, p));
                } else {
                    assert(pix(bytes@, p) =~= seq![255u8, 255u8, 255u8, coverage@[p]]);
                }
            }
        }
        k = k + 1;
    }
    Image { bytes, width, height }
}

/// The glyphs of a font that are in its atlas, by character and size.
pub struct GlyphCache<A> {
    entries: Vec<((char, u16), CharacterInfo<A>)>,
}

impl<A> GlyphCache<A> {
    /// The cached glyphs.
    pub closed spec fn glyphs(&self) -> Map<(char, u16), CharacterInfo<A>> {
        Map::new(
            |k: (char, u16)| exists|i: int| 0 <= i < self.entries@.len() && #[trigger] self.entries@[i].0 == k,
            |k: (char, u16)| self.entries@[choose|i: int| 0 <= i < self.entries@.len() && #[trigger] self.entries@[i].0 == k].1,
        )
    }

    /// Each character and size is cached once.
    pub closed spec fn wf(&self) -> bool {
        forall|i: int, j: int|
            0 <= i < j < self.entries@.len() ==> #[trigger] self.entries@[i].0 != #[trigger] self.entries@[j].0
    }

    pub fn new() -> (c: Self)
        ensures
            c.wf(),
            c.glyphs() == Map::<(char, u16), CharacterInfo<A>>::empty(),
    {
        let c = GlyphCache { entries: Vec::new() };
        assert(c.glyphs() =~= Map::<(char, u16), CharacterInfo<A>>::empty());
        c
    }

    fn position(&self, character: char, size: u16) -> (r: Option<usize>)
        ensures
            match r {
                Some(i) => i < self.entries@.len() && self.entries@[i as int].0 == (character, size),
                None => forall|i: int| 0 <= i < self.entries@.len() ==> self.entries@[i].0 != (character, size),
            },
    {
        let mut i: usize = 0;
        while i < self.entries.len()
            invariant
                0 <= i <= self.entries@.len(),
                forall|j: int| 0 <= j < i ==> self.entries@[j].0 != (character, size),
            decreases self.entries@.len() - i,
        {
            if self.entries[i].0.0 == character && self.entries[i].0.1 == size {
                return Some(i);
            }
            i = i + 1;
        }
        None
    }

    /// Returns whether the character has been cached at this size.
    pub fn contains(&self, character: char, size: u16) -> (b: bool)
        ensures
            b == self.glyphs().contains_key((character, size)),
    {
        match self.position(character, size) {
            Some(i) => {
                assert(self.glyphs().dom().contains((character, size)));
                true
            },
            None => false,
        }
    }

    /// The cached glyph of a character at a size.
    pub fn get(&self, character: char, size: u16) -> (r: Option<CharacterInfo<A>>)
        where
            A: Copy,
        requires
            self.wf(),
        ensures
            match r {
                Some(info) => self.glyphs().contains_key((character, size)) && self.glyphs()[(character, size)] == info,
                None => !self.glyphs().contains_key((character, size)),
            },
    {
        match self.position(character, size) {
            Some(i) => {
                let k = (character, size);
                assert(self.glyphs().dom().contains(k));
                let ghost c = choose|j: int| 0 <= j < self.entries@.len() && #[trigger] self.entries@[j].0 == k;
                assert(c == i);
                Some(self.entries[i].1)
            },
            None => None,
        }
    }

    /// Caches a glyph that is not cached yet.
    pub fn insert(&mut self, character: char, size: u16, info: CharacterInfo<A>)
        requires
            old(self).wf(),
            !old(self).glyphs().contains_key((character, size)),
        ensures
            final(self).wf(),
            final(self).glyphs() == old(self).glyphs().insert((character, size), info),
    {
        let ghost old_entries = self.entries@;
        let k = (character, size);
        self.entries.push((k, info));
        proof {
            let e = self.entries@;
            assert forall|i: int| 0 <= i < old_entries.len() implies #[trigger] e[i] == old_entries[i] by {}
            assert forall|kk: (char, u16)| #[trigger] self.glyphs().dom().contains(kk) <==> old(self).glyphs().insert(k, info).dom().contains(kk) by {
                if kk != k && self.glyphs().dom().contains(kk) {
                    let i = choose|i: int| 0 <= i < e.len() && #[trigger] e[i].0 == kk;
                    assert(i < old_entries.len());
                    assert(old_entries[i].0 == kk);
                }
                if old(self).glyphs().dom().contains(kk) {
                    let i = choose|i: int| 0 <= i < old_entries.len() && #[trigger] old_entries[i].0 == kk;
                    assert(e[i].0 == kk);
                }
                if kk == k {
                    assert(e[old_entries.len() as int].0 == k);
                }
            }
            assert forall|kk: (char, u16)| #[trigger] self.glyphs().dom().contains(kk) implies self.glyphs()[kk] == old(self).glyphs().insert(k, info)[kk] by {
                let i = choose|i: int| 0 <= i < e.len() && #[trigger] e[i].0 == kk;
                if kk == k {
                    assert(i == old_entries.len());
                } else {
                    assert(i < old_entries.len());
                    assert(old_entries[i].0 == kk);
                    let j = choose|j: int| 0 <= j < old_entries.len() && #[trigger] old_entries[j].0 == kk;
                    assert(i == j);
                }
            }
            assert(self.glyphs() =~= old(self).glyphs().insert(k, info));
        }
    }
}

/// Caches a rasterized glyph of `character` at `size`, unless it is cached already:
/// its sprite goes into the atlas under a new unique key, and the key with the
/// glyph's offsets and advance into the font's cache.
pub fn cache_glyph<A: Copy>(
    cache: &mut GlyphCache<A>,
    atlas: &mut Atlas,
    character: char,
    size: u16,
    glyph: RasterizedGlyph<A>,
)
    requires
        old(cache).wf(),
        old(atlas).wf(),
        old(atlas).last_unique_id() < u64::MAX,
        glyph.bitmap@.len() == glyph.width as int * glyph.height as int,
        !old(cache).glyphs().contains_key((character, size)) ==> cache_spec(
            old(atlas).layout(),
            SpriteKey::Id((old(atlas).last_unique_id() + 1) as u64),
            glyph.width as int,
            glyph.height as int,
        ) is Some,
    ensures
        final(cache).wf(),
        final(atlas).wf(),
        old(cache).glyphs().contains_key((character, size)) ==> {
            &&& final(cache).glyphs() == old(cache).glyphs()
            &&& final(atlas).layout() == old(atlas).layout()
            &&& final(atlas).cached() == old(atlas).cached()
            &&& final(atlas).last_unique_id() == old(atlas).last_unique_id()
        },
        !old(cache).glyphs().contains_key((character, size)) ==> {
            let key = SpriteKey::Id((old(atlas).last_unique_id() + 1) as u64);
            &&& final(atlas).last_unique_id() == old(atlas).last_unique_id() + 1
            &&& final(atlas).layout() == cache_spec(old(atlas).layout(), key, glyph.width as int, glyph.height as int).unwrap()
            &&& final(atlas).cached().contains_key(key)
            &&& final(atlas).cached() == old(atlas).cached().insert(key, final(atlas).cached()[key])
            &&& final(atlas).cached()[key].len() == glyph.bitmap@.len() * 4
            &&& forall|p: int| 0 <= p < glyph.bitmap@.len() ==> #[trigger] pix(final(atlas).cached()[key], p)
                == seq![255u8, 255u8, 255u8, glyph.bitmap@[p]]
            &&& final(cache).glyphs() == old(cache).glyphs().insert(
                (character, size),
                CharacterInfo { offset_x: glyph.offset_x, offset_y: glyph.offset_y, advance: glyph.advance, sprite: key },
            )
        },
{
    if cache.contains(character, size) {
        return;
    }
    let sprite = atlas.new_unique_id();
    let image = glyph_image(glyph.width, glyph.height, glyph.bitmap.as_slice());
    atlas.cache_sprite(sprite, image);
    let info = CharacterInfo { offset_x: glyph.offset_x, offset_y: glyph.offset_y, advance: glyph.advance, sprite };
    cache.insert(character, size, info);
}

} // verus!

//! The glyph and sprite atlas: small images packed in rows into one big image,
//! which doubles in size and repacks its sprites when one does not fit.
use vstd::prelude::*;
use miniquad::{FilterMode, TextureId};
use crate::texture::{Image, PixelRect, pix, pixel_index, lemma_pixel_index_injective, lemma_pixel_index_bound};

verus! {

/// A sampling mode of the graphics backend; the atlas only stores it.
#[verifier::external_type_specification]
#[verifier::external_body]
pub struct ExFilterMode(FilterMode);

/// `TextureId == TextureId`: the comparison that miniquad derives, which holds
/// exactly for equal ids.
#[verifier::external_body]
fn texture_id_eq(a: &TextureId, b: &TextureId) -> (r: bool)
    ensures
        r == (*a == *b),
{
    *a == *b
}

// pixel gap between glyphs in the atlas
pub const GAP: u16 = 2;

// well..
pub const UNIQUENESS_OFFSET: u64 = 100000;

#[derive(Debug, Clone, Copy)]
pub struct Sprite {
    pub rect: PixelRect,
}

#[derive(Debug, Clone, Copy)]
pub enum SpriteKey {
    Texture(TextureId),
    Id(u64),
}

impl SpriteKey {
    pub fn same(&self, other: &SpriteKey) -> (b: bool)
        ensures
            b == (*self == *other),
    {
        match (self, other) {
            (SpriteKey::Texture(a), SpriteKey::Texture(b)) => texture_id_eq(a, b),
            (SpriteKey::Id(a), SpriteKey::Id(b)) => *a == *b,
            _ => false,
        }
    }
}

/// The packing state of an atlas: its size, the cursor of the row being filled,
/// the tallest sprite of that row, and where each sprite lies.
pub struct AtlasLayout {
    pub w: int,
    pub h: int,
    pub cx: int,
    pub cy: int,
    pub mlh: int,
    pub sprites: Seq<(SpriteKey, PixelRect)>,
}

/// The last position of `k` in `s`.
pub open spec fn find_key(s: Seq<(SpriteKey, PixelRect)>, k: SpriteKey) -> Option<int>
    decreases s.len(),
{
    if s.len() == 0 {
        None
    } else if s.last().0 == k {
        Some(s.len() - 1)
    } else {
        find_key(s.drop_last(), k)
    }
}

pub proof fn lemma_find_key(s: Seq<(SpriteKey, PixelRect)>, k: SpriteKey)
    ensures
        match find_key(s, k) {
            Some(i) => 0 <= i < s.len() && s[i].0 == k && forall|j: int| i < j < s.len() ==> s[j].0 != k,
            None => forall|j: int| 0 <= j < s.len() ==> s[j].0 != k,
        },
    decreases s.len(),
{
    if s.len() > 0 {
        let d = s.drop_last();
        lemma_find_key(d, k);
        assert forall|j: int| 0 <= j < d.len() implies d[j] == s[j] by {}
    }
}

/// `s` with `k` placed at `r`: its entry replaced, or a new entry at the end.
pub open spec fn insert_entry(s: Seq<(SpriteKey, PixelRect)>, k: SpriteKey, r: PixelRect) -> Seq<(SpriteKey, PixelRect)> {
    match find_key(s, k) {
        Some(i) => s.update(i, (k, r)),
        None => s.push((k, r)),
    }
}

/// Repacking order: taller first, then wider, then by the old position, top
/// to bottom and left to right. `a` strictly comes before `b`.
pub open spec fn repacks_before(a: PixelRect, b: PixelRect) -> bool {
    ||| a.h > b.h
    ||| (a.h == b.h && a.w > b.w)
    ||| (a.h == b.h && a.w == b.w && a.y < b.y)
    ||| (a.h == b.h && a.w == b.w && a.y == b.y && a.x < b.x)
}

/// Inserts `e` into the ordered `t` after every entry that does not come after it.
pub open spec fn sort_insert(t: Seq<(SpriteKey, PixelRect)>, e: (SpriteKey, PixelRect)) -> Seq<(SpriteKey, PixelRect)>
    decreases t.len(),
{
    if t.len() == 0 {
        seq![e]
    } else if !repacks_before(e.1, t.last().1) {
        t.push(e)
    } else {
        sort_insert(t.drop_last(), e).push(t.last())
    }
}

/// The sprites in repacking order (a stable sort).
pub open spec fn repack_order(s: Seq<(SpriteKey, PixelRect)>) -> Seq<(SpriteKey, PixelRect)>
    decreases s.len(),
{
    if s.len() == 0 {
        s
    } else {
        sort_insert(repack_order(s.drop_last()), s.last())
    }
}

pub proof fn lemma_sort_insert_contains(t: Seq<(SpriteKey, PixelRect)>, e: (SpriteKey, PixelRect))
    ensures
        sort_insert(t, e).len() == t.len() + 1,
        forall|x: (SpriteKey, PixelRect)| #[trigger] sort_insert(t, e).contains(x) <==> (t.contains(x) || x == e),
    decreases t.len(),
{
    if t.len() == 0 {
        assert(seq![e][0] == e);
    } else if !repacks_before(e.1, t.last().1) {
        assert forall|x: (SpriteKey, PixelRect)| #[trigger] t.push(e).contains(x) <==> (t.contains(x) || x == e) by {
            if t.push(e).contains(x) {
                let i = choose|i: int| 0 <= i < t.push(e).len() && t.push(e)[i] == x;
                if i < t.len() {
                    assert(t[i] == x);
                }
            }
            if t.contains(x) {
                let i = choose|i: int| 0 <= i < t.len() && t[i] == x;
                assert(t.push(e)[i] == x);
            }
            if x == e {
                assert(t.push(e)[t.len() as int] == x);
            }
        }
    } else {
        let d = t.drop_last();
        lemma_sort_insert_contains(d, e);
        let si = sort_insert(d, e);
        assert forall|x: (SpriteKey, PixelRect)| #[trigger] si.push(t.last()).contains(x) <==> (t.contains(x) || x == e) by {
            if si.push(t.last()).contains(x) {
                let i = choose|i: int| 0 <= i < si.push(t.last()).len() && si.push(t.last())[i] == x;
                if i < si.len() {
                    assert(si[i] == x);
                    assert(si.contains(x));
                    if d.contains(x) {
                        let k = choose|k: int| 0 <= k < d.len() && d[k] == x;
                        assert(t[k] == x);
                    }
                } else {
                    assert(t[t.len() - 1] == x);
                }
            }
            if t.contains(x) {
                let k = choose|k: int| 0 <= k < t.len() && t[k] == x;
                if k < t.len() - 1 {
                    assert(d[k] == x);
                    assert(si.contains(x));
                    let m = choose|m: int| 0 <= m < si.len() && si[m] == x;
                    assert(si.push(t.last())[m] == x);
                } else {
                    assert(si.push(t.last())[si.len() as int] == x);
                }
            }
            if x == e {
                assert(si.contains(x));
                let m = choose|m: int| 0 <= m < si.len() && si[m] == x;
                assert(si.push(t.last())[m] == x);
            }
        }
    }
}

pub proof fn lemma_repack_order_contains(s: Seq<(SpriteKey, PixelRect)>)
    ensures
        repack_order(s).len() == s.len(),
        forall|x: (SpriteKey, PixelRect)| #[trigger] repack_order(s).contains(x) <==> s.contains(x),
    decreases s.len(),
{
    if s.len() > 0 {
        let d = s.drop_last();
        lemma_repack_order_contains(d);
        lemma_sort_insert_contains(repack_order(d), s.last());
        assert forall|x: (SpriteKey, PixelRect)| #[trigger] repack_order(s).contains(x) <==> s.contains(x) by {
            if d.contains(x) {
                let k = choose|k: int| 0 <= k < d.len() && d[k] == x;
                assert(s[k] == x);
            }
            if s.contains(x) {
                let k = choose|k: int| 0 <= k < s.len() && s[k] == x;
                if k < s.len() - 1 {
                    assert(d[k] == x);
                }
            }
        }
    }
}

/// Sorting an entry in whose key is new keeps the keys unique.
proof fn lemma_sort_insert_keys(t: Seq<(SpriteKey, PixelRect)>, e: (SpriteKey, PixelRect))
    requires
        keys_unique(t),
        forall|j: int| 0 <= j < t.len() ==> #[trigger] t[j].0 != e.0,
    ensures
        keys_unique(sort_insert(t, e)),
    decreases t.len(),
{
    if t.len() == 0 {
    } else if !repacks_before(e.1, t.last().1) {
        let n = t.push(e);
        assert forall|i: int, j: int| 0 <= i < j < n.len() implies n[i].0 != n[j].0 by {
            assert(n[i] == t[i]);
            if j < t.len() {
                assert(n[j] == t[j]);
            }
        }
    } else {
        let d = t.drop_last();
        let last = t.last();
        assert(last == t[t.len() - 1]);
        assert forall|j: int| 0 <= j < d.len() implies #[trigger] d[j].0 != e.0 by {
            assert(d[j] == t[j]);
        }
        lemma_sort_insert_keys(d, e);
        lemma_sort_insert_contains(d, e);
        let si = sort_insert(d, e);
        let n = si.push(last);
        assert forall|i: int, j: int| 0 <= i < j < n.len() implies n[i].0 != n[j].0 by {
            if j == si.len() {
                assert(n[i] == si[i]);
                assert(si.contains(si[i]));
                if si[i] != e {
                    assert(d.contains(si[i]));
                    let k = choose|k: int| 0 <= k < d.len() && d[k] == si[i];
                    assert(t[k] == d[k]);
                }
            } else {
                assert(n[i] == si[i] && n[j] == si[j]);
            }
        }
    }
}

/// Keys that are unique stay unique in repacking order.
proof fn lemma_repack_order_keys(s: Seq<(SpriteKey, PixelRect)>)
    requires
        keys_unique(s),
    ensures
        keys_unique(repack_order(s)),
    decreases s.len(),
{
    if s.len() > 0 {
        let d = s.drop_last();
        assert forall|i: int, j: int| 0 <= i < j < d.len() implies d[i].0 != d[j].0 by {
            assert(d[i] == s[i] && d[j] == s[j]);
        }
        lemma_repack_order_keys(d);
        lemma_repack_order_contains(d);
        let r = repack_order(d);
        assert forall|j: int| 0 <= j < r.len() implies #[trigger] r[j].0 != s.last().0 by {
            assert(r.contains(r[j]));
            assert(d.contains(r[j]));
            let k = choose|k: int| 0 <= k < d.len() && d[k] == r[j];
            assert(s[k] == d[k]);
        }
        lemma_sort_insert_keys(r, s.last());
    }
}

/// Inserting `e` into `t` where it comes before every entry from `k` on
/// leaves those entries after it, in order.
proof fn lemma_sort_insert_split(t: Seq<(SpriteKey, PixelRect)>, e: (SpriteKey, PixelRect), k: int)
    requires
        0 <= k <= t.len(),
        forall|j: int| k <= j < t.len() ==> repacks_before(e.1, #[trigger] t[j].1),
    ensures
        sort_insert(t, e) == sort_insert(t.subrange(0, k), e) + t.subrange(k, t.len() as int),
    decreases t.len() - k,
{
    if k < t.len() {
        let d = t.drop_last();
        assert(repacks_before(e.1, t[t.len() - 1].1));
        lemma_sort_insert_split(d, e, k);
        assert(d.subrange(0, k) =~= t.subrange(0, k));
        assert(sort_insert(t, e) == sort_insert(d, e).push(t.last()));
        assert(sort_insert(d.subrange(0, k), e) + d.subrange(k, d.len() as int) + seq![t.last()]
            =~= sort_insert(t.subrange(0, k), e) + t.subrange(k, t.len() as int));
    } else {
        assert(t.subrange(0, k) =~= t);
        assert(t.subrange(k, t.len() as int) =~= Seq::<(SpriteKey, PixelRect)>::empty());
    }
}

fn before(a: &PixelRect, b: &PixelRect) -> (r: bool)
    ensures
        r == repacks_before(*a, *b),
{
    a.h > b.h || (a.h == b.h && a.w > b.w) || (a.h == b.h && a.w == b.w && a.y < b.y) || (a.h == b.h && a.w
        == b.w && a.y == b.y && a.x < b.x)
}

/// Sorts the sprites into repacking order.
fn sort_for_repack(s: Vec<(SpriteKey, Sprite)>) -> (r: Vec<(SpriteKey, Sprite)>)
    ensures
        entries(r@) == repack_order(entries(s@)),
{
    let mut r: Vec<(SpriteKey, Sprite)> = Vec::new();
    let n = s.len();
    let mut m: usize = 0;
    while m < n
        invariant
            0 <= m <= n,
            n == s@.len(),
            entries(r@) == repack_order(entries(s@).subrange(0, m as int)),
        decreases n - m,
    {
        let e = s[m];
        let ghost t = entries(r@);
        r.push(e);
        let mut k: usize = r.len() - 1;
        proof {
            assert(entries(s@).subrange(0, m + 1).drop_last() =~= entries(s@).subrange(0, m as int));
            assert(entries(s@).subrange(0, m + 1).last() == entry(e));
            assert(entries(r@) =~= t.subrange(0, k as int).push(entry(e)) + t.subrange(k as int, t.len() as int));
        }
        while k > 0 && before(&r[k].1.rect, &r[k - 1].1.rect)
            invariant
                0 <= k <= t.len(),
                r@.len() == t.len() + 1,
                entries(r@) == t.subrange(0, k as int).push(entry(e)) + t.subrange(k as int, t.len() as int),
                forall|j: int| k <= j < t.len() ==> repacks_before(entry(e).1, #[trigger] t[j].1),
            decreases k,
        {
            proof {
                assert(entries(r@)[k as int] == entry(e));
                assert(entries(r@)[k - 1] == t[k - 1]);
            }
            let ghost old_r = entries(r@);
            let a = r[k];
            let b = r[k - 1];
            r.set(k, b);
            r.set(k - 1, a);
            proof {
                assert(entries(r@) =~= old_r.update(k as int, t[k - 1]).update(k - 1, entry(e)));
            }
            k = k - 1;
            proof {
                assert forall|j: int| 0 <= j < entries(r@).len() implies entries(r@)[j] == (t.subrange(0, k as int).push(entry(e)) + t.subrange(k as int, t.len() as int))[j] by {
                    if j < k {
                        assert(old_r[j] == t[j]);
                    } else if j == k {
                    } else if j == k + 1 {
                    } else {
                        assert(old_r[j] == t[j - 1]);
                    }
                }
                assert(entries(r@) =~= t.subrange(0, k as int).push(entry(e)) + t.subrange(k as int, t.len() as int));
            }
        }
        proof {
            lemma_sort_insert_split(t, entry(e), k as int);
            if k > 0 {
                assert(entries(r@)[k as int] == entry(e));
                assert(entries(r@)[k - 1] == t[k - 1]);
                assert(t.subrange(0, k as int).last() == t[k - 1]);
                assert(sort_insert(t.subrange(0, k as int), entry(e)) == t.subrange(0, k as int).push(entry(e)));
            } else {
                assert(t.subrange(0, 0) =~= Seq::<(SpriteKey, PixelRect)>::empty());
                assert(sort_insert(t.subrange(0, 0), entry(e)) == seq![entry(e)]);
                assert(t.subrange(0, 0).push(entry(e)) =~= seq![entry(e)]);
            }
        }
        m = m + 1;
    }
    assert(entries(s@).subrange(0, n as int) =~= entries(s@));
    r
}

/// An entry of the sprite list, by its rect.
pub open spec fn entry(e: (SpriteKey, Sprite)) -> (SpriteKey, PixelRect) {
    (e.0, e.1.rect)
}

pub open spec fn entries(s: Seq<(SpriteKey, Sprite)>) -> Seq<(SpriteKey, PixelRect)> {
    s.map_values(|e: (SpriteKey, Sprite)| entry(e))
}

/// Whether the cursor's row fits a sprite `sw` wide.
pub open spec fn fits_row(l: AtlasLayout, sw: int) -> bool {
    l.cx + sw + GAP <= l.w
}

pub open spec fn place_x(l: AtlasLayout, sw: int) -> int {
    if fits_row(l, sw) { l.cx + GAP } else { GAP as int }
}

pub open spec fn next_cx(l: AtlasLayout, sw: int) -> int {
    if fits_row(l, sw) { l.cx + (sw + GAP * 2) } else { sw + GAP }
}

pub open spec fn next_cy(l: AtlasLayout, sw: int) -> int {
    if fits_row(l, sw) { l.cy } else { l.cy + (l.mlh + GAP * 2) }
}

pub open spec fn next_mlh(l: AtlasLayout, sw: int, sh: int) -> int {
    if fits_row(l, sw) {
        if sh > l.mlh { sh } else { l.mlh }
    } else {
        sh
    }
}

/// The cursor arithmetic of placing a `sw` by `sh` sprite stays within `u16`.
pub open spec fn step_ok(l: AtlasLayout, sw: int, sh: int) -> bool {
    let y = next_cy(l, sw);
    let x = place_x(l, sw);
    &&& if fits_row(l, sw) {
        sw + GAP * 2 <= 65535 && l.cx + (sw + GAP * 2) <= 65535
    } else {
        l.mlh + GAP * 2 <= 65535 && l.cy + (l.mlh + GAP * 2) <= 65535 && sw + GAP <= 65535
    }
    &&& y + sh <= 65535
    &&& (y + sh > l.h || x + sw <= 65535)
}

/// The placed sprite would cross the bottom or the right edge.
pub open spec fn out_of_bounds(l: AtlasLayout, sw: int, sh: int) -> bool {
    next_cy(l, sw) + sh > l.h || place_x(l, sw) + sw > l.w
}

/// Doubling the atlas stays within `u16` sizes and a buffer that fits in memory.
pub open spec fn grow_ok(l: AtlasLayout) -> bool {
    &&& 2 * l.w <= 65535
    &&& 2 * l.h <= 65535
    &&& (2 * l.w) * (2 * l.h) * 4 <= usize::MAX
}

/// An empty atlas of twice the size.
pub open spec fn grown(l: AtlasLayout) -> AtlasLayout {
    AtlasLayout { w: 2 * l.w, h: 2 * l.h, cx: 0, cy: 0, mlh: 0, sprites: Seq::empty() }
}

pub open spec fn layout_ok(l: AtlasLayout) -> bool {
    &&& 1 <= l.w <= 65535
    &&& 1 <= l.h <= 65535
    &&& 0 <= l.cx <= 65535
    &&& 0 <= l.cy <= 65535
    &&& 0 <= l.mlh <= 65535
}

/// The layout after caching a `sw` by `sh` sprite under `k`, or `None` where the
/// packing would overflow its `u16` arithmetic (where the code panics).
pub open spec fn cache_spec(l: AtlasLayout, k: SpriteKey, sw: int, sh: int) -> Option<AtlasLayout>
    decreases 65536 - l.w, 0int,
{
    if !(layout_ok(l) && 0 <= sw <= 65535 && 0 <= sh <= 65535) {
        None
    } else if !step_ok(l, sw, sh) {
        None
    } else if out_of_bounds(l, sw, sh) {
        if !grow_ok(l) {
            None
        } else {
            match repack_spec(grown(l), repack_order(l.sprites)) {
                None => None,
                Some(l2) => if l2.w <= l.w || l2.w > 65535 {
                    None
                } else {
                    cache_spec(l2, k, sw, sh)
                },
            }
        }
    } else {
        Some(
            AtlasLayout {
                w: l.w,
                h: l.h,
                cx: next_cx(l, sw),
                cy: next_cy(l, sw),
                mlh: next_mlh(l, sw, sh),
                sprites: insert_entry(
                    l.sprites,
                    k,
                    PixelRect { x: place_x(l, sw) as u16, y: next_cy(l, sw) as u16, w: sw as u16, h: sh as u16 },
                ),
            },
        )
    }
}

/// The layout after caching, one by one, the sprites of `order`.
pub open spec fn repack_spec(l: AtlasLayout, order: Seq<(SpriteKey, PixelRect)>) -> Option<AtlasLayout>
    decreases 65536 - l.w, order.len() + 1,
{
    if order.len() == 0 {
        Some(l)
    } else if !(0 <= l.w <= 65535) {
        None
    } else {
        match cache_spec(l, order[0].0, order[0].1.w as int, order[0].1.h as int) {
            None => None,
            Some(l2) => if l2.w < l.w || l2.w > 65535 {
                None
            } else {
                repack_spec(l2, order.drop_first())
            },
        }
    }
}

/// The pixels of `r` in an image of width `w` hold the sprite `c` (row-major, `r.w` wide).
pub open spec fn region_holds(bytes: Seq<u8>, w: int, r: PixelRect, c: Seq<u8>) -> bool {
    forall|a: int, b: int|
        0 <= a < r.w && 0 <= b < r.h ==> #[trigger] pix(bytes, pixel_index(w, r.x + a, r.y + b)) == pix(
            c,
            pixel_index(r.w as int, a, b),
        )
}

/// Two rects share no pixel: one lies wholly above, below, left or right of the other.
pub open spec fn apart(r: PixelRect, n: PixelRect) -> bool {
    ||| r.y + r.h <= n.y
    ||| n.y + n.h <= r.y
    ||| r.x + r.w <= n.x
    ||| n.x + n.w <= r.x
}

/// No two cached sprites share a pixel.
pub open spec fn pairwise_apart(s: Seq<(SpriteKey, PixelRect)>) -> bool {
    forall|i: int, j: int| 0 <= i < j < s.len() ==> apart(#[trigger] s[i].1, #[trigger] s[j].1)
}

pub open spec fn keys_unique(s: Seq<(SpriteKey, PixelRect)>) -> bool {
    forall|i: int, j: int| 0 <= i < j < s.len() ==> s[i].0 != s[j].0
}

/// Whether pixel `(x, y)` lies in `r`.
pub open spec fn in_rect(r: PixelRect, x: int, y: int) -> bool {
    r.x <= x < r.x + r.w && r.y <= y < r.y + r.h
}

/// Whether some sprite of `s` covers pixel `(x, y)`.
pub open spec fn covered(s: Seq<(SpriteKey, PixelRect)>, x: int, y: int) -> bool {
    exists|t: int| 0 <= t < s.len() && in_rect(#[trigger] s[t].1, x, y)
}

/// Whether some earlier rect of `st` covers pixel `(x, y)`.
pub open spec fn covered_by_stale(st: Seq<(PixelRect, Seq<u8>)>, x: int, y: int) -> bool {
    exists|t: int| 0 <= t < st.len() && in_rect(#[trigger] st[t].0, x, y)
}

/// The earlier rects of sprites cached again after caching `k`, a `sw` by `sh`
/// sprite, given those of before, `st`, and the cached pixels `c`: a key cached
/// again leaves its old rect, with its old pixels, behind; a regrow starts afresh.
pub open spec fn stale_spec(
    l: AtlasLayout,
    st: Seq<(PixelRect, Seq<u8>)>,
    c: Map<SpriteKey, Seq<u8>>,
    k: SpriteKey,
    sw: int,
    sh: int,
) -> Seq<(PixelRect, Seq<u8>)>
    decreases 65536 - l.w,
{
    if !(layout_ok(l) && 0 <= sw <= 65535 && 0 <= sh <= 65535) || !step_ok(l, sw, sh) {
        st
    } else if out_of_bounds(l, sw, sh) {
        if !grow_ok(l) {
            st
        } else {
            match repack_spec(grown(l), repack_order(l.sprites)) {
                None => st,
                Some(l2) => if l2.w <= l.w || l2.w > 65535 {
                    st
                } else {
                    stale_spec(l2, Seq::empty(), c, k, sw, sh)
                },
            }
        }
    } else {
        match find_key(l.sprites, k) {
            Some(i) => st.push((l.sprites[i].1, c[k])),
            None => st,
        }
    }
}

/// A transparent black pixel.
pub open spec fn blank_pixel() -> Seq<u8> {
    seq![0u8, 0u8, 0u8, 0u8]
}

/// `Atlas::stale_ok` over the layout `l`, the image bytes and the left-behind rects `st`.
pub open spec fn stale_layout_ok(l: AtlasLayout, bytes: Seq<u8>, st: Seq<(PixelRect, Seq<u8>)>) -> bool {
    let s = l.sprites;
    &&& forall|t: int|
        0 <= t < st.len() ==> {
            let r = #[trigger] st[t].0;
            &&& r.x + r.w <= l.w
            &&& r.y + r.h <= l.h
            &&& (r.y + r.h <= l.cy || (r.y == l.cy && r.x + r.w <= l.cx && r.h <= l.mlh))
            &&& st[t].1.len() == r.w * r.h * 4
            &&& region_holds(bytes, l.w, r, st[t].1)
        }
    &&& forall|t: int, u: int| 0 <= t < u < st.len() ==> apart(#[trigger] st[t].0, #[trigger] st[u].0)
    &&& forall|t: int, i: int|
        0 <= t < st.len() && 0 <= i < s.len() ==> apart(#[trigger] st[t].0, #[trigger] s[i].1)
    &&& forall|x: int, y: int|
        0 <= x < l.w && 0 <= y < l.h && !covered(s, x, y) && !covered_by_stale(st, x, y) ==> #[trigger] pix(
            bytes,
            pixel_index(l.w, x, y),
        ) == blank_pixel()
}

/// A sprite atlas. Cached sprites are kept with the rect they occupy.
pub struct Atlas {
    texture: TextureId,
    image: Image,
    sprites: Vec<(SpriteKey, Sprite)>,
    cursor_x: u16,
    cursor_y: u16,
    max_line_height: u16,
    pub dirty: bool,
    filter: FilterMode,
    unique_id: u64,
    /// The pixels of each cached sprite, by key.
    contents: Ghost<Map<SpriteKey, Seq<u8>>>,
    /// The rects that keys cached again left behind since the last regrow, with
    /// the pixels they still hold.
    stale: Ghost<Seq<(PixelRect, Seq<u8>)>>,
}

impl Atlas {
    pub closed spec fn layout(&self) -> AtlasLayout {
        AtlasLayout {
            w: self.image.width as int,
            h: self.image.height as int,
            cx: self.cursor_x as int,
            cy: self.cursor_y as int,
            mlh: self.max_line_height as int,
            sprites: entries(self.sprites@),
        }
    }

    /// The pixels of each cached sprite, by key.
    pub closed spec fn cached(&self) -> Map<SpriteKey, Seq<u8>> {
        self.contents@
    }

    /// The atlas image.
    pub closed spec fn atlas_image(&self) -> Image {
        self.image
    }

    /// Whether the image changed since the texture was last updated.
    pub closed spec fn is_dirty(&self) -> bool {
        self.dirty
    }

    pub closed spec fn last_unique_id(&self) -> u64 {
        self.unique_id
    }

    pub closed spec fn texture_id(&self) -> TextureId {
        self.texture
    }

    pub closed spec fn filter_mode(&self) -> FilterMode {
        self.filter
    }

    /// The rects that keys cached again left behind since the last regrow, with the
    /// pixels they still hold.
    pub closed spec fn stale_rects(&self) -> Seq<(PixelRect, Seq<u8>)> {
        self.stale@
    }

    pub closed spec fn wf(&self) -> bool {
        let l = self.layout();
        let s = l.sprites;
        &&& self.image.wf()
        &&& keys_unique(s)
        &&& pairwise_apart(s)
        &&& forall|i: int| 0 <= i < s.len() ==> self.contents@.contains_key(#[trigger] s[i].0)
        &&& forall|k: SpriteKey| #[trigger] self.contents@.contains_key(k) ==> find_key(s, k) is Some
        &&& forall|i: int|
            0 <= i < s.len() ==> {
                let r = #[trigger] s[i].1;
                &&& r.x + r.w <= l.w
                &&& r.y + r.h <= l.h
                &&& (r.y + r.h <= l.cy || (r.y == l.cy && r.x + r.w <= l.cx && r.h <= l.mlh))
                &&& self.contents@[s[i].0].len() == r.w * r.h * 4
                &&& region_holds(self.image.bytes@, l.w, r, self.contents@[s[i].0])
            }
        &&& self.stale_ok()
    }

    /// The left-behind rects lie in the atlas before the cursor, hold their pixels,
    /// and share no pixel with each other or with a cached sprite; every pixel that
    /// none of them and no cached sprite covers is transparent black.
    pub closed spec fn stale_ok(&self) -> bool {
        stale_layout_ok(self.layout(), self.image.bytes@, self.stale@)
    }

    /// An empty atlas of `width` by `height` transparent black pixels.
    pub fn with_size(texture: TextureId, filter: FilterMode, width: u16, height: u16) -> (a: Atlas)
        requires
            width as int * height as int * 4 <= usize::MAX,
        ensures
            a.wf(),
            a.layout() == (AtlasLayout { w: width as int, h: height as int, cx: 0, cy: 0, mlh: 0, sprites: Seq::empty() }),
            a.cached() == Map::<SpriteKey, Seq<u8>>::empty(),
            a.stale_rects().len() == 0,
            !a.is_dirty(),
            a.last_unique_id() == UNIQUENESS_OFFSET,
            a.texture_id() == texture,
            a.filter_mode() == filter,
    {
        let black: [u8; 4] = [0, 0, 0, 0];
        let image = Image::gen_image_color(width, height, black);
        proof {
            assert(black@ =~= blank_pixel());
            assert forall|x: int, y: int| 0 <= x < width && 0 <= y < height implies #[trigger] pix(
                image.bytes@,
                pixel_index(width as int, x, y),
            ) == blank_pixel() by {
                lemma_pixel_index_bound(width as int, height as int, x, y);
            }
        }
        let a = Atlas {
            image,
            texture,
            cursor_x: 0,
            cursor_y: 0,
            dirty: false,
            max_line_height: 0,
            sprites: Vec::new(),
            filter,
            unique_id: UNIQUENESS_OFFSET,
            contents: Ghost(Map::empty()),
            stale: Ghost(Seq::empty()),
        };
        assert(a.layout().sprites =~= Seq::<(SpriteKey, PixelRect)>::empty());
        a
    }

    /// A 512 by 512 atlas drawn through `texture`.
    pub fn new(texture: TextureId, filter: FilterMode) -> (a: Atlas)
        ensures
            a.wf(),
            a.layout() == (AtlasLayout { w: 512, h: 512, cx: 0, cy: 0, mlh: 0, sprites: Seq::empty() }),
            a.cached() == Map::<SpriteKey, Seq<u8>>::empty(),
            a.stale_rects().len() == 0,
            !a.is_dirty(),
            a.last_unique_id() == UNIQUENESS_OFFSET,
    {
        Self::with_size(texture, filter, 512, 512)
    }

    pub fn new_unique_id(&mut self) -> (k: SpriteKey)
        requires
            old(self).last_unique_id() < u64::MAX,
        ensures
            final(self).last_unique_id() == old(self).last_unique_id() + 1,
            k == SpriteKey::Id(final(self).last_unique_id()),
            final(self).layout() == old(self).layout(),
            final(self).cached() == old(self).cached(),
            final(self).atlas_image() == old(self).atlas_image(),
            final(self).wf() == old(self).wf(),
    {
        self.unique_id += 1;
        proof {
            assert(self.layout() == old(self).layout());
            assert(self.stale_ok() == old(self).stale_ok());
        }
        SpriteKey::Id(self.unique_id)
    }

    pub fn set_filter(&mut self, filter_mode: FilterMode)
        ensures
            final(self).filter_mode() == filter_mode,
            final(self).layout() == old(self).layout(),
            final(self).cached() == old(self).cached(),
            final(self).atlas_image() == old(self).atlas_image(),
            final(self).wf() == old(self).wf(),
    {
        self.filter = filter_mode;
        proof {
            assert(self.layout() == old(self).layout());
            assert(self.stale_ok() == old(self).stale_ok());
        }
    }

    /// The position of `key` among the sprites, searched from the end.
    fn find(&self, key: &SpriteKey) -> (r: Option<usize>)
        ensures
            match r {
                Some(i) => find_key(self.layout().sprites, *key) == Some(i as int),
                None => find_key(self.layout().sprites, *key) is None,
            },
    {
        let mut i: usize = self.sprites.len();
        assert(entries(self.sprites@).subrange(0, i as int) =~= entries(self.sprites@));
        while i > 0
            invariant
                0 <= i <= self.sprites@.len(),
                find_key(entries(self.sprites@), *key) == find_key(entries(self.sprites@).subrange(0, i as int), *key),
            decreases i,
        {
            let ghost pre = entries(self.sprites@).subrange(0, i as int);
            assert(pre.drop_last() =~= entries(self.sprites@).subrange(0, i - 1));
            assert(pre.last() == entry(self.sprites@[i - 1]));
            if self.sprites[i - 1].0.same(key) {
                return Some(i - 1);
            }
            i = i - 1;
        }
        None
    }

    /// The sprite cached under `key`.
    pub fn get(&self, key: SpriteKey) -> (r: Option<Sprite>)
        ensures
            match find_key(self.layout().sprites, key) {
                Some(i) => r == Some(Sprite { rect: self.layout().sprites[i].1 }),
                None => r is None,
            },
    {
        match self.find(&key) {
            Some(i) => {
                proof {
                    lemma_find_key(self.layout().sprites, key);
                }
                Some(self.sprites[i].1)
            },
            None => None,
        }
    }

    pub fn width(&self) -> (w: u16)
        ensures
            w == self.layout().w,
    {
        self.image.width
    }

    pub fn height(&self) -> (h: u16)
        ensures
            h == self.layout().h,
    {
        self.image.height
    }

    /// The atlas image.
    pub fn image(&self) -> (i: &Image)
        ensures
            *i == self.atlas_image(),
    {
        &self.image
    }

    /// The texture the atlas is drawn through.
    pub fn texture(&self) -> (t: TextureId)
        ensures
            t == self.texture_id(),
    {
        self.texture
    }

    /// Marks the atlas uploaded to its texture.
    pub fn mark_uploaded(&mut self)
        ensures
            !final(self).is_dirty(),
            final(self).layout() == old(self).layout(),
            final(self).cached() == old(self).cached(),
            final(self).atlas_image() == old(self).atlas_image(),
            final(self).wf() == old(self).wf(),
    {
        self.dirty = false;
        proof {
            assert(self.layout() == old(self).layout());
            assert(self.stale_ok() == old(self).stale_ok());
        }
    }
}

/// Pixels of two rects that are apart are numbered apart.
proof fn lemma_apart_pixels(w: int, r: PixelRect, n: PixelRect, a: int, b: int, c: int, d: int)
    requires
        apart(r, n),
        r.x + r.w <= w,
        n.x + n.w <= w,
        0 <= a < r.w,
        0 <= b < r.h,
        0 <= c < n.w,
        0 <= d < n.h,
    ensures
        pixel_index(w, r.x + a, r.y + b) != pixel_index(w, n.x + c, n.y + d),
{
    if pixel_index(w, r.x + a, r.y + b) == pixel_index(w, n.x + c, n.y + d) {
        lemma_pixel_index_injective(w, r.x + a, r.y + b, n.x + c, n.y + d);
    }
}

/// Byte buffers of a `w` by `h` image that agree on every pixel are equal.
proof fn lemma_pixels_determine_bytes(s1: Seq<u8>, s2: Seq<u8>, w: int, h: int)
    requires
        w >= 0,
        h >= 0,
        s1.len() == w * h * 4,
        s2.len() == w * h * 4,
        forall|a: int, b: int| 0 <= a < w && 0 <= b < h ==> #[trigger] pix(s1, pixel_index(w, a, b)) == pix(s2, pixel_index(w, a, b)),
    ensures
        s1 == s2,
{
    assert forall|k: int| 0 <= k < s1.len() implies s1[k] == s2[k] by {
        let p = k / 4;
        vstd::arithmetic::div_mod::lemma_fundamental_div_mod(k, 4);
        assert(0 <= k % 4 < 4);
        assert(p < w * h);
        assert(w > 0) by {
            if w == 0 {
                assert(w * h == 0);
            }
        }
        let a = p % w;
        let b = p / w;
        vstd::arithmetic::div_mod::lemma_fundamental_div_mod(p, w);
        assert(0 <= a < w);
        assert(p == b * w + a) by (nonlinear_arith)
            requires
                p == w * (p / w) + p % w,
                b == p / w,
                a == p % w,
        ;
        assert(0 <= b) by {
            vstd::arithmetic::div_mod::lemma_div_pos_is_pos(p, w);
        }
        assert(b < h) by {
            if b >= h {
                assert(b * w >= h * w) by (nonlinear_arith)
                    requires
                        b >= h,
                        w > 0,
                ;
                assert(h * w == w * h) by (nonlinear_arith);
            }
        }
        assert(pixel_index(w, a, b) == p);
        assert(pix(s1, p) == pix(s2, p));
        assert(pix(s1, p)[k - 4 * p] == s1[k]);
        assert(pix(s2, p)[k - 4 * p] == s2[k]);
    }
    assert(s1 =~= s2);
}

pub proof fn lemma_insert_entry(s: Seq<(SpriteKey, PixelRect)>, k: SpriteKey, r: PixelRect)
    requires
        keys_unique(s),
    ensures
        keys_unique(insert_entry(s, k, r)),
        find_key(insert_entry(s, k, r), k) is Some,
        forall|k2: SpriteKey| k2 != k ==> (#[trigger] find_key(insert_entry(s, k, r), k2) is Some <==> find_key(s, k2) is Some),
        forall|t: int|
            0 <= t < insert_entry(s, k, r).len() ==> (#[trigger] insert_entry(s, k, r)[t] == (k, r) || (
            t < s.len() && insert_entry(s, k, r)[t] == s[t] && s[t].0 != k)),
        insert_entry(s, k, r).contains((k, r)),
{
    lemma_find_key(s, k);
    let n = insert_entry(s, k, r);
    lemma_find_key(n, k);
    match find_key(s, k) {
        Some(i) => {
            assert(n[i] == (k, r));
        },
        None => {
            assert(n[s.len() as int] == (k, r));
        },
    }
    assert forall|k2: SpriteKey| k2 != k implies (#[trigger] find_key(n, k2) is Some <==> find_key(s, k2) is Some) by {
        lemma_find_key(n, k2);
        lemma_find_key(s, k2);
        if find_key(s, k2) is Some {
            let j = find_key(s, k2).unwrap();
            assert(n[j] == s[j]);
        }
        if find_key(n, k2) is Some {
            let j = find_key(n, k2).unwrap();
            assert(n[j].0 == k2);
            assert(j < s.len() && n[j] == s[j]);
        }
    }
}

impl Atlas {
    /// Places `sprite` at `(x, y)`, whose pixels no other sprite covers, and moves
    /// the cursor to `(ncx, ncy)` with `nmlh` the tallest height of its row.
    fn place(&mut self, key: SpriteKey, sprite: Image, x: u16, y: u16, ncx: u16, ncy: u16, nmlh: u16)
        requires
            old(self).wf(),
            sprite.wf(),
            x + sprite.width <= old(self).layout().w,
            y + sprite.height <= old(self).layout().h,
            forall|t: int|
                0 <= t < old(self).layout().sprites.len() ==> apart(
                    #[trigger] old(self).layout().sprites[t].1,
                    PixelRect { x, y, w: sprite.width, h: sprite.height },
                ),
            forall|t: int|
                0 <= t < old(self).layout().sprites.len() ==> {
                    let r = #[trigger] old(self).layout().sprites[t].1;
                    r.y + r.h <= ncy || (r.y == ncy && r.x + r.w <= ncx && r.h <= nmlh)
                },
            forall|t: int|
                0 <= t < old(self).stale_rects().len() ==> apart(
                    #[trigger] old(self).stale_rects()[t].0,
                    PixelRect { x, y, w: sprite.width, h: sprite.height },
                ),
            forall|t: int|
                0 <= t < old(self).stale_rects().len() ==> {
                    let r = #[trigger] old(self).stale_rects()[t].0;
                    r.y + r.h <= ncy || (r.y == ncy && r.x + r.w <= ncx && r.h <= nmlh)
                },
            y == ncy,
            x + sprite.width <= ncx,
            sprite.height <= nmlh,
        ensures
            final(self).wf(),
            final(self).layout() == (AtlasLayout {
                w: old(self).layout().w,
                h: old(self).layout().h,
                cx: ncx as int,
                cy: ncy as int,
                mlh: nmlh as int,
                sprites: insert_entry(
                    old(self).layout().sprites,
                    key,
                    PixelRect { x, y, w: sprite.width, h: sprite.height },
                ),
            }),
            final(self).cached() == old(self).cached().insert(key, sprite.bytes@),
            final(self).stale_rects() == match find_key(old(self).layout().sprites, key) {
                Some(i) => old(self).stale_rects().push((old(self).layout().sprites[i].1, old(self).cached()[key])),
                None => old(self).stale_rects(),
            },
            final(self).is_dirty(),
            final(self).last_unique_id() == old(self).last_unique_id(),
            final(self).texture_id() == old(self).texture_id(),
            final(self).filter_mode() == old(self).filter_mode(),
    {
        let ghost n = PixelRect { x, y, w: sprite.width, h: sprite.height };
        let ghost st = self.stale@;
        let ghost orig = self.image.bytes@;
        let ghost s = self.layout().sprites;
        let ghost big_w = self.image.width as int;
        let ghost c0 = self.contents@;
        self.cursor_x = ncx;
        self.cursor_y = ncy;
        self.max_line_height = nmlh;
        self.dirty = true;
        let width = sprite.width as usize;
        let height = sprite.height as usize;
        assert forall|t: int|
            0 <= t < s.len() implies (#[trigger] s[t].1).x + s[t].1.w <= big_w && s[t].1.y + s[t].1.h <= self.image.height by {
            assert(old(self).wf());
        }
        assert forall|t: int|
            0 <= t < st.len() implies (#[trigger] st[t].0).x + st[t].0.w <= big_w && st[t].0.y + st[t].0.h <= self.image.height
                && apart(st[t].0, n) && region_holds(self.image.bytes@, big_w, st[t].0, st[t].1) by {
            assert(old(self).wf());
            assert(old(self).stale_ok());
            assert(old(self).stale_rects()[t] == st[t]);
        }
        assert forall|t: int| 0 <= t < s.len() implies region_holds(self.image.bytes@, big_w, #[trigger] s[t].1, c0[s[t].0]) by {
            assert(old(self).wf());
        }
        let mut j: usize = 0;
        while j < height
            invariant
                self.image.wf(),
                self.image.width == big_w,
                self.image.height == old(self).image.height,
                sprite.wf(),
                width == sprite.width,
                height == sprite.height,
                n == (PixelRect { x, y, w: sprite.width, h: sprite.height }),
                x + width <= big_w,
                y + height <= self.image.height,
                s == entries(self.sprites@),
                s == old(self).layout().sprites,
                c0 == self.contents@,
                old(self).wf(),
                self.cursor_x == ncx,
                self.cursor_y == ncy,
                self.max_line_height == nmlh,
                self.dirty,
                self.unique_id == old(self).unique_id,
                self.texture == old(self).texture,
                self.filter == old(self).filter,
                forall|t: int|
                    0 <= t < s.len() ==> (#[trigger] s[t].1).x + s[t].1.w <= big_w && s[t].1.y + s[t].1.h <= self.image.height,
                forall|t: int| 0 <= t < s.len() ==> apart(#[trigger] s[t].1, n),
                forall|t: int|
                    0 <= t < s.len() ==> region_holds(self.image.bytes@, big_w, #[trigger] s[t].1, c0[s[t].0]),
                st == self.stale@,
                forall|t: int|
                    0 <= t < st.len() ==> (#[trigger] st[t].0).x + st[t].0.w <= big_w && st[t].0.y + st[t].0.h <= self.image.height
                        && apart(st[t].0, n) && region_holds(self.image.bytes@, big_w, st[t].0, st[t].1),
                0 <= j <= height,
                forall|a: int, b: int|
                    0 <= a < width && 0 <= b < j ==> #[trigger] pix(self.image.bytes@, pixel_index(big_w, x + a, y + b))
                        == pix(sprite.bytes@, pixel_index(width as int, a, b)),
                forall|px: int, py: int|
                    0 <= px < big_w && 0 <= py < self.image.height && !in_rect(n, px, py) ==> #[trigger] pix(
                        self.image.bytes@,
                        pixel_index(big_w, px, py),
                    ) == pix(orig, pixel_index(big_w, px, py)),
                orig == old(self).image.bytes@,
            decreases height - j,
        {
            let mut i: usize = 0;
            while i < width
                invariant
                    self.image.wf(),
                    self.image.width == big_w,
                    self.image.height == old(self).image.height,
                    sprite.wf(),
                    width == sprite.width,
                    height == sprite.height,
                    n == (PixelRect { x, y, w: sprite.width, h: sprite.height }),
                    x + width <= big_w,
                    y + height <= self.image.height,
                    s == entries(self.sprites@),
                    s == old(self).layout().sprites,
                    c0 == self.contents@,
                    old(self).wf(),
                    self.cursor_x == ncx,
                    self.cursor_y == ncy,
                    self.max_line_height == nmlh,
                    self.dirty,
                    self.unique_id == old(self).unique_id,
                    self.texture == old(self).texture,
                    self.filter == old(self).filter,
                    forall|t: int|
                        0 <= t < s.len() ==> (#[trigger] s[t].1).x + s[t].1.w <= big_w && s[t].1.y + s[t].1.h <= self.image.height,
                    forall|t: int| 0 <= t < s.len() ==> apart(#[trigger] s[t].1, n),
                    forall|t: int|
                        0 <= t < s.len() ==> region_holds(self.image.bytes@, big_w, #[trigger] s[t].1, c0[s[t].0]),
                    st == self.stale@,
                    forall|t: int|
                        0 <= t < st.len() ==> (#[trigger] st[t].0).x + st[t].0.w <= big_w && st[t].0.y + st[t].0.h <= self.image.height
                            && apart(st[t].0, n) && region_holds(self.image.bytes@, big_w, st[t].0, st[t].1),
                    0 <= j < height,
                    0 <= i <= width,
                    forall|a: int, b: int|
                        0 <= a < width && 0 <= b < j ==> #[trigger] pix(self.image.bytes@, pixel_index(big_w, x + a, y + b))
                            == pix(sprite.bytes@, pixel_index(width as int, a, b)),
                    forall|a: int|
                        0 <= a < i ==> #[trigger] pix(self.image.bytes@, pixel_index(big_w, x + a, y + j)) == pix(
                            sprite.bytes@,
                            pixel_index(width as int, a, j as int),
                        ),
                    forall|px: int, py: int|
                        0 <= px < big_w && 0 <= py < self.image.height && !in_rect(n, px, py) ==> #[trigger] pix(
                            self.image.bytes@,
                            pixel_index(big_w, px, py),
                        ) == pix(orig, pixel_index(big_w, px, py)),
                    orig == old(self).image.bytes@,
                decreases width - i,
            {
                let ghost before = self.image.bytes@;
                proof {
                    lemma_pixel_index_bound(width as int, height as int, i as int, j as int);
                    lemma_pixel_index_bound(big_w, self.image.height as int, x + i, y + j);
                }
                let c = sprite.get_pixel(i as u32, j as u32);
                self.image.set_pixel(x as u32 + i as u32, y as u32 + j as u32, c);
                proof {
                    let p = pixel_index(big_w, x + i, y + j);
                    assert forall|t: int|
                        0 <= t < st.len() implies (#[trigger] st[t].0).x + st[t].0.w <= big_w && st[t].0.y + st[t].0.h <= self.image.height
                            && apart(st[t].0, n) && region_holds(self.image.bytes@, big_w, st[t].0, st[t].1) by {
                        let r = st[t].0;
                        assert forall|a: int, b: int| 0 <= a < r.w && 0 <= b < r.h implies #[trigger] pix(
                            self.image.bytes@,
                            pixel_index(big_w, r.x + a, r.y + b),
                        ) == pix(st[t].1, pixel_index(r.w as int, a, b)) by {
                            lemma_apart_pixels(big_w, r, n, a, b, i as int, j as int);
                            lemma_pixel_index_bound(big_w, self.image.height as int, r.x + a, r.y + b);
                            assert(pix(self.image.bytes@, pixel_index(big_w, r.x + a, r.y + b)) == pix(before, pixel_index(big_w, r.x + a, r.y + b)));
                        }
                    }
                    assert forall|t: int|
                        0 <= t < s.len() implies region_holds(self.image.bytes@, big_w, #[trigger] s[t].1, c0[s[t].0]) by {
                        let r = s[t].1;
                        assert(old(self).wf());
                        assert(r.x + r.w <= big_w && r.y + r.h <= self.image.height);
                        assert forall|a: int, b: int| 0 <= a < r.w && 0 <= b < r.h implies #[trigger] pix(
                            self.image.bytes@,
                            pixel_index(big_w, r.x + a, r.y + b),
                        ) == pix(c0[s[t].0], pixel_index(r.w as int, a, b)) by {
                            lemma_apart_pixels(big_w, r, n, a, b, i as int, j as int);
                            lemma_pixel_index_bound(big_w, self.image.height as int, r.x + a, r.y + b);
                            assert(pix(self.image.bytes@, pixel_index(big_w, r.x + a, r.y + b)) == pix(before, pixel_index(big_w, r.x + a, r.y + b)));
                        }
                    }
                    assert forall|a: int, b: int|
                        0 <= a < width && 0 <= b < j implies #[trigger] pix(self.image.bytes@, pixel_index(big_w, x + a, y + b))
                            == pix(sprite.bytes@, pixel_index(width as int, a, b)) by {
                        lemma_pixel_index_bound(big_w, self.image.height as int, x + a, y + b);
                        if pixel_index(big_w, x + a, y + b) == p {
                            lemma_pixel_index_injective(big_w, x + a, y + b, x + i, y + j);
                        }
                    }
                    assert forall|px: int, py: int|
                        0 <= px < big_w && 0 <= py < self.image.height && !in_rect(n, px, py) implies #[trigger] pix(
                            self.image.bytes@,
                            pixel_index(big_w, px, py),
                        ) == pix(orig, pixel_index(big_w, px, py)) by {
                        lemma_pixel_index_bound(big_w, self.image.height as int, px, py);
                        if pixel_index(big_w, px, py) == p {
                            lemma_pixel_index_injective(big_w, px, py, x + i, y + j);
                        }
                        assert(pix(self.image.bytes@, pixel_index(big_w, px, py)) == pix(before, pixel_index(big_w, px, py)));
                    }
                    assert forall|a: int|
                        0 <= a < i + 1 implies #[trigger] pix(self.image.bytes@, pixel_index(big_w, x + a, y + j)) == pix(
                            sprite.bytes@,
                            pixel_index(width as int, a, j as int),
                        ) by {
                        if a < i {
                            lemma_pixel_index_bound(big_w, self.image.height as int, x + a, y + j);
                            if pixel_index(big_w, x + a, y + j) == p {
                                lemma_pixel_index_injective(big_w, x + a, y + j, x + i, y + j);
                            }
                        }
                    }
                }
                i = i + 1;
            }
            j = j + 1;
        }
        let found = self.find(&key);
        match found {
            Some(t) => {
                proof {
                    lemma_find_key(s, key);
                }
                self.sprites.set(t, (key, Sprite { rect: PixelRect { x, y, w: sprite.width, h: sprite.height } }));
            },
            None => {
                self.sprites.push((key, Sprite { rect: PixelRect { x, y, w: sprite.width, h: sprite.height } }));
            },
        }
        proof {
            assert(entries(self.sprites@) =~= insert_entry(s, key, n));
            self.contents = Ghost(c0.insert(key, sprite.bytes@));
            lemma_insert_entry(s, key, n);
            let s2 = insert_entry(s, key, n);
            assert(region_holds(self.image.bytes@, big_w, n, sprite.bytes@));
            assert forall|t: int| 0 <= t < s2.len() implies self.contents@.contains_key(#[trigger] s2[t].0) by {}
            assert forall|k: SpriteKey| #[trigger] self.contents@.contains_key(k) implies find_key(s2, k) is Some by {
                if k != key {
                    assert(c0.contains_key(k));
                }
            }
            assert forall|t: int|
                0 <= t < s2.len() implies {
                    let r = #[trigger] s2[t].1;
                    &&& r.x + r.w <= big_w
                    &&& r.y + r.h <= self.image.height
                    &&& (r.y + r.h <= ncy || (r.y == ncy && r.x + r.w <= ncx && r.h <= nmlh))
                    &&& self.contents@[s2[t].0].len() == r.w * r.h * 4
                    &&& region_holds(self.image.bytes@, big_w, r, self.contents@[s2[t].0])
                } by {
                if s2[t] != (key, n) {
                    assert(s2[t] == s[t]);
                    assert(old(self).wf());
                }
            }
            lemma_find_key(s, key);
            assert(old(self).wf());
            assert(old(self).stale_ok());
            let st2 = match find_key(s, key) {
                Some(i) => st.push((s[i].1, c0[key])),
                None => st,
            };
            self.stale = Ghost(st2);
            assert(s2.contains((key, n)));
            // every sprite rect of before is a sprite rect now, or left behind
            assert forall|t: int| 0 <= t < s.len() implies {
                ||| (s[t].0 != key && exists|u: int| 0 <= u < s2.len() && #[trigger] s2[u] == s[t])
                ||| (find_key(s, key) == Some(t) && st2[st.len() as int] == (s[t].1, c0[key]))
            } by {
                match find_key(s, key) {
                    Some(i) => {
                        if t == i {
                        } else {
                            assert(s[t].0 != key);
                            assert(s2[t] == s[t]);
                        }
                    },
                    None => {
                        assert(s2[t] == s[t]);
                    },
                }
            }
            assert forall|t: int|
                0 <= t < st2.len() implies {
                    let r = #[trigger] st2[t].0;
                    &&& r.x + r.w <= big_w
                    &&& r.y + r.h <= self.image.height
                    &&& (r.y + r.h <= ncy || (r.y == ncy && r.x + r.w <= ncx && r.h <= nmlh))
                    &&& st2[t].1.len() == r.w * r.h * 4
                    &&& region_holds(self.image.bytes@, big_w, r, st2[t].1)
                } by {
                if t < st.len() {
                    assert(st2[t] == st[t]);
                    assert(old(self).stale_rects()[t] == st[t]);
                } else {
                    let i = find_key(s, key).unwrap();
                    assert(st2[t] == (s[i].1, c0[key]));
                    assert(s[i].0 == key);
                }
            }
            assert forall|t: int, u: int| 0 <= t < u < st2.len() implies apart(#[trigger] st2[t].0, #[trigger] st2[u].0) by {
                assert(st2[t] == st[t]);
                if u < st.len() {
                    assert(st2[u] == st[u]);
                } else {
                    let i = find_key(s, key).unwrap();
                    assert(st2[u].0 == s[i].1);
                }
            }
            assert forall|t: int, v: int|
                0 <= t < st2.len() && 0 <= v < s2.len() implies apart(#[trigger] st2[t].0, #[trigger] s2[v].1) by {
                if s2[v] == (key, n) {
                    if t < st.len() {
                        assert(st2[t] == st[t]);
                    } else {
                        let i = find_key(s, key).unwrap();
                        assert(st2[t].0 == s[i].1);
                    }
                } else {
                    assert(s2[v] == s[v] && s[v].0 != key);
                    if t < st.len() {
                        assert(st2[t] == st[t]);
                    } else {
                        let i = find_key(s, key).unwrap();
                        assert(st2[t].0 == s[i].1);
                        assert(i != v);
                        if i < v {
                            assert(apart(s[i].1, s[v].1));
                        } else {
                            assert(apart(s[v].1, s[i].1));
                        }
                    }
                }
            }
            assert forall|px: int, py: int|
                0 <= px < big_w && 0 <= py < self.image.height && !covered(s2, px, py) && !covered_by_stale(st2, px, py)
                    implies #[trigger] pix(self.image.bytes@, pixel_index(big_w, px, py)) == blank_pixel() by {
                let u0 = choose|u: int| 0 <= u < s2.len() && s2[u] == (key, n);
                if in_rect(n, px, py) {
                    assert(in_rect(s2[u0].1, px, py));
                }
                if covered(s, px, py) {
                    let t = choose|t: int| 0 <= t < s.len() && in_rect(#[trigger] s[t].1, px, py);
                    if s[t].0 != key {
                        let u = choose|u: int| 0 <= u < s2.len() && #[trigger] s2[u] == s[t];
                        assert(in_rect(s2[u].1, px, py));
                    } else {
                        assert(in_rect(st2[st.len() as int].0, px, py));
                    }
                }
                if covered_by_stale(st, px, py) {
                    let t = choose|t: int| 0 <= t < st.len() && in_rect(#[trigger] st[t].0, px, py);
                    assert(st2[t] == st[t]);
                    assert(in_rect(st2[t].0, px, py));
                }
                assert(pix(orig, pixel_index(big_w, px, py)) == blank_pixel());
            }
            assert forall|a: int, b: int| 0 <= a < b < s2.len() implies apart(#[trigger] s2[a].1, #[trigger] s2[b].1) by {
                assert(old(self).wf());
                if s2[a] == (key, n) {
                    assert(s2[b].0 != key);
                    assert(s2[b] == s[b]);
                } else if s2[b] == (key, n) {
                    assert(s2[a] == s[a]);
                } else {
                    assert(s2[a] == s[a] && s2[b] == s[b]);
                }
            }
        }
    }
}

impl Atlas {
    /// Caches `sprite` under `key`: it goes to the right of the row being filled,
    /// or starts a new row. When it would cross the atlas's edge, the atlas doubles
    /// in both directions and every cached sprite is cached again, tallest first
    /// (then widest, then by its old position), before `sprite` is.
    pub fn cache_sprite(&mut self, key: SpriteKey, sprite: Image)
        requires
            old(self).wf(),
            sprite.wf(),
            cache_spec(old(self).layout(), key, sprite.width as int, sprite.height as int) is Some,
        ensures
            final(self).wf(),
            final(self).layout() == cache_spec(old(self).layout(), key, sprite.width as int, sprite.height as int).unwrap(),
            final(self).cached() == old(self).cached().insert(key, sprite.bytes@),
            final(self).stale_rects() == stale_spec(
                old(self).layout(),
                old(self).stale_rects(),
                old(self).cached(),
                key,
                sprite.width as int,
                sprite.height as int,
            ),
            final(self).is_dirty(),
            final(self).last_unique_id() == old(self).last_unique_id(),
            final(self).texture_id() == old(self).texture_id(),
            final(self).filter_mode() == old(self).filter_mode(),
        decreases 65536 - old(self).layout().w,
    {
        let ghost l = self.layout();
        let ghost sw = sprite.width as int;
        let ghost sh = sprite.height as int;
        let width = sprite.width as usize;
        let height = sprite.height as usize;
        let fits = self.cursor_x as u32 + width as u32 + GAP as u32 <= self.image.width as u32;
        let (x, ncx, ncy, nmlh) = if fits {
            let nmlh = if height as u16 > self.max_line_height {
                height as u16
            } else {
                self.max_line_height
            };
            (self.cursor_x + GAP, self.cursor_x + (width as u16 + GAP * 2), self.cursor_y, nmlh)
        } else {
            (GAP, width as u16 + GAP, self.cursor_y + (self.max_line_height + GAP * 2), height as u16)
        };
        let y = ncy;
        if y + sprite.height > self.image.height || x + sprite.width > self.image.width {
            // texture bounds exceeded: reset glyph cache state
            self.cursor_x = 0;
            self.cursor_y = 0;
            self.max_line_height = 0;
            // increase font texture size
            let new_width = self.image.width * 2;
            let new_height = self.image.height * 2;
            let black: [u8; 4] = [0, 0, 0, 0];
            let mut old_image = Image::gen_image_color(new_width, new_height, black);
            proof {
                assert(black@ =~= blank_pixel());
                assert forall|x: int, y: int| 0 <= x < new_width && 0 <= y < new_height implies #[trigger] pix(
                    old_image.bytes@,
                    pixel_index(new_width as int, x, y),
                ) == blank_pixel() by {
                    lemma_pixel_index_bound(new_width as int, new_height as int, x, y);
                }
            }
            core::mem::swap(&mut self.image, &mut old_image);
            let mut old_sprites: Vec<(SpriteKey, Sprite)> = Vec::new();
            core::mem::swap(&mut self.sprites, &mut old_sprites);
            let ghost old_contents = self.contents@;
            proof {
                self.contents = Ghost(Map::empty());
                self.stale = Ghost(Seq::empty());
                assert(self.layout().sprites =~= Seq::<(SpriteKey, PixelRect)>::empty());
                assert(self.layout() == grown(l));
                assert(entries(old_sprites@) == l.sprites);
            }
            // recache all previously cached sprites, tallest first
            let sorted = sort_for_repack(old_sprites);
            let ghost order = entries(sorted@);
            proof {
                lemma_repack_order_contains(l.sprites);
                assert(old(self).wf());
                lemma_repack_order_keys(l.sprites);
                assert(order.subrange(0, order.len() as int) =~= order);
            }
            let n = sorted.len();
            let mut i: usize = 0;
            while i < n
                invariant
                    self.wf(),
                    n == order.len(),
                    order == entries(sorted@),
                    order == repack_order(l.sprites),
                    forall|e: (SpriteKey, PixelRect)| #[trigger] order.contains(e) <==> l.sprites.contains(e),
                    0 <= i <= n,
                    layout_ok(l),
                    grow_ok(l),
                    l == old(self).layout(),
                    repack_spec(grown(l), order) is Some,
                    repack_spec(grown(l), order) == repack_spec(self.layout(), order.subrange(i as int, n as int)),
                    2 * l.w <= self.layout().w <= 65535,
                    old_image.wf(),
                    old_image.width == l.w,
                    old_image.height == l.h,
                    keys_unique(l.sprites),
                    forall|t: int|
                        0 <= t < l.sprites.len() ==> {
                            let r = #[trigger] l.sprites[t].1;
                            &&& r.x + r.w <= l.w
                            &&& r.y + r.h <= l.h
                            &&& old_contents.contains_key(l.sprites[t].0)
                            &&& old_contents[l.sprites[t].0].len() == r.w * r.h * 4
                            &&& region_holds(old_image.bytes@, l.w, r, old_contents[l.sprites[t].0])
                        },
                    forall|k: SpriteKey| #[trigger] old_contents.contains_key(k) ==> find_key(l.sprites, k) is Some,
                    forall|k: SpriteKey|
                        #[trigger] self.cached().contains_key(k) ==> old_contents.contains_key(k) && self.cached()[k]
                            == old_contents[k],
                    forall|t: int| 0 <= t < i ==> self.cached().contains_key(#[trigger] order[t].0),
                    keys_unique(order),
                    forall|k: SpriteKey|
                        #[trigger] self.cached().contains_key(k) ==> exists|t: int| 0 <= t < i && #[trigger] order[t].0 == k,
                    self.stale_rects() == Seq::<(PixelRect, Seq<u8>)>::empty(),
                    self.is_dirty() || i == 0,
                    self.last_unique_id() == old(self).last_unique_id(),
                    self.texture_id() == old(self).texture_id(),
                    self.filter_mode() == old(self).filter_mode(),
                decreases n - i,
            {
                let e = sorted[i];
                let ghost ent = entry(e);
                let ghost cur = self.layout();
                let ghost rest = order.subrange(i as int, n as int);
                proof {
                    assert(order[i as int] == ent);
                    assert(order.contains(ent));
                    assert(l.sprites.contains(ent));
                    let t = choose|t: int| 0 <= t < l.sprites.len() && l.sprites[t] == ent;
                    let r = ent.1;
                    assert(l.sprites[t].1 == r);
                    assert(r.x + r.w <= l.w && r.y + r.h <= l.h);
                    if r.w > 0 && r.h > 0 {
                        lemma_pixel_index_bound(l.w, l.h, r.x + r.w - 1, r.y + r.h - 1);
                    }
                    assert(r.w as int * r.h as int <= l.w * l.h) by (nonlinear_arith)
                        requires
                            0 <= r.w <= l.w,
                            0 <= r.h <= l.h,
                    ;
                    assert(old_image.bytes@.len() == l.w * l.h * 4);
                    assert(old_image.bytes.len() == old_image.bytes@.len());
                    assert(rest[0] == ent);
                    assert(rest.drop_first() =~= order.subrange(i + 1, n as int));
                }
                proof {
                    if self.cached().contains_key(ent.0) {
                        let t = choose|t: int| 0 <= t < i && #[trigger] order[t].0 == ent.0;
                        assert(order[t].0 != order[i as int].0);
                    }
                    if has_key(cur.sprites, ent.0) {
                        let j = choose|j: int| 0 <= j < cur.sprites.len() && (#[trigger] cur.sprites[j]).0 == ent.0;
                        assert(self.cached().contains_key(cur.sprites[j].0));
                    }
                    lemma_stale_fresh(cur, self.cached(), ent.0, ent.1.w as int, ent.1.h as int);
                }
                let img = old_image.sub_image(e.1.rect);
                proof {
                    let t = choose|t: int| 0 <= t < l.sprites.len() && l.sprites[t] == ent;
                    let r = ent.1;
                    assert(region_holds(old_image.bytes@, l.w, r, old_contents[ent.0]));
                    assert forall|a: int, b: int| 0 <= a < r.w && 0 <= b < r.h implies #[trigger] pix(
                        img.bytes@,
                        pixel_index(r.w as int, a, b),
                    ) == pix(old_contents[ent.0], pixel_index(r.w as int, a, b)) by {
                        assert(img.pixel(a, b) == old_image.pixel(r.x + a, r.y + b));
                    }
                    lemma_pixels_determine_bytes(img.bytes@, old_contents[ent.0], r.w as int, r.h as int);
                }
                self.cache_sprite(e.0, img);
                proof {
                    let l2 = self.layout();
                    assert(cache_spec(cur, ent.0, ent.1.w as int, ent.1.h as int) == Some(l2));
                    assert(repack_spec(cur, rest) == repack_spec(l2, order.subrange(i + 1, n as int)));
                    assert forall|t: int| 0 <= t < i + 1 implies self.cached().contains_key(#[trigger] order[t].0) by {
                        if t < i {
                            assert(old(self).cached().contains_key(order[t].0) || true);
                        }
                    }
                    assert forall|k: SpriteKey| #[trigger] self.cached().contains_key(k) implies exists|t: int|
                        0 <= t < i + 1 && #[trigger] order[t].0 == k by {
                        if k == ent.0 {
                            assert(order[i as int].0 == k);
                        } else {
                            let t = choose|t: int| 0 <= t < i && #[trigger] order[t].0 == k;
                            assert(order[t].0 == k);
                        }
                    }
                }
                i = i + 1;
            }
            proof {
                assert(order.subrange(n as int, n as int) =~= Seq::<(SpriteKey, PixelRect)>::empty());
                let l2 = self.layout();
                assert(repack_spec(grown(l), order) == Some(l2));
                assert(self.cached() =~= old_contents) by {
                    assert forall|k: SpriteKey| old_contents.contains_key(k) implies self.cached().contains_key(k) by {
                        lemma_find_key(l.sprites, k);
                        let t = find_key(l.sprites, k).unwrap();
                        assert(l.sprites.contains(l.sprites[t]));
                        assert(order.contains(l.sprites[t]));
                        let u = choose|u: int| 0 <= u < order.len() && order[u] == l.sprites[t];
                        assert(self.cached().contains_key(order[u].0));
                    }
                }
            }
            self.cache_sprite(key, sprite);
        } else {
            proof {
                assert forall|t: int| 0 <= t < l.sprites.len() implies apart(
                    #[trigger] l.sprites[t].1,
                    PixelRect { x, y, w: sprite.width, h: sprite.height },
                ) by {
                    assert(old(self).wf());
                }
                assert forall|t: int| 0 <= t < l.sprites.len() implies {
                    let r = #[trigger] l.sprites[t].1;
                    r.y + r.h <= ncy || (r.y == ncy && r.x + r.w <= ncx && r.h <= nmlh)
                } by {
                    assert(old(self).wf());
                }
                let st = self.stale_rects();
                assert forall|t: int| 0 <= t < st.len() implies apart(
                    #[trigger] st[t].0,
                    PixelRect { x, y, w: sprite.width, h: sprite.height },
                ) by {
                    assert(old(self).wf());
                    assert(old(self).stale_ok());
                }
                assert forall|t: int| 0 <= t < st.len() implies {
                    let r = #[trigger] st[t].0;
                    r.y + r.h <= ncy || (r.y == ncy && r.x + r.w <= ncx && r.h <= nmlh)
                } by {
                    assert(old(self).wf());
                    assert(old(self).stale_ok());
                }
            }
            self.place(key, sprite, x, y, ncx, ncy, nmlh);
        }
    }
}


/// Every cached sprite can be read back from the atlas image, at the rect that
/// the atlas gives for its key, through any number of regrows and repacks.
pub proof fn law_cached_sprites_keep_their_pixels(a: Atlas, k: SpriteKey)
    requires
        a.wf(),
        a.cached().contains_key(k),
    ensures
        find_key(a.layout().sprites, k) matches Some(i) && {
            let r = a.layout().sprites[i].1;
            &&& r.x + r.w <= a.layout().w
            &&& r.y + r.h <= a.layout().h
            &&& a.cached()[k].len() == r.w * r.h * 4
            &&& region_holds(a.atlas_image().bytes@, a.layout().w, r, a.cached()[k])
        },
{
    lemma_find_key(a.layout().sprites, k);
    let i = find_key(a.layout().sprites, k).unwrap();
    assert(a.layout().sprites[i].0 == k);
}


/// Two different cached sprites never share a pixel of the atlas.
pub proof fn law_cached_sprites_never_overlap(a: Atlas, k1: SpriteKey, k2: SpriteKey)
    requires
        a.wf(),
        a.cached().contains_key(k1),
        a.cached().contains_key(k2),
        k1 != k2,
    ensures
        find_key(a.layout().sprites, k1) matches Some(i) && find_key(a.layout().sprites, k2) matches Some(j)
            && apart(a.layout().sprites[i].1, a.layout().sprites[j].1),
{
    let s = a.layout().sprites;
    lemma_find_key(s, k1);
    lemma_find_key(s, k2);
    let i = find_key(s, k1).unwrap();
    let j = find_key(s, k2).unwrap();
    assert(i != j);
    if i < j {
        assert(apart(s[i].1, s[j].1));
    } else {
        assert(apart(s[j].1, s[i].1));
    }
}


/// `w` doubled `n` times.
pub open spec fn doubled(w: int, n: nat) -> int
    decreases n,
{
    if n == 0 {
        w
    } else {
        2 * doubled(w, (n - 1) as nat)
    }
}

proof fn lemma_doubled_adds(w: int, a: nat, b: nat)
    ensures
        doubled(doubled(w, a), b) == doubled(w, a + b),
    decreases b,
{
    if b > 0 {
        lemma_doubled_adds(w, a, (b - 1) as nat);
        assert((a + b - 1) as nat == a + (b - 1) as nat);
    }
}

/// Caching gives the key a rect of the sprite's own size, and the atlas size only
/// ever doubles: the number of doublings is returned.
proof fn lemma_cache_spec_shape(l: AtlasLayout, k: SpriteKey, sw: int, sh: int) -> (m: nat)
    requires
        cache_spec(l, k, sw, sh) is Some,
    ensures
        ({
            let l2 = cache_spec(l, k, sw, sh).unwrap();
            &&& find_key(l2.sprites, k) matches Some(i) && l2.sprites[i].1.w == sw && l2.sprites[i].1.h == sh
            &&& l2.w == doubled(l.w, m)
            &&& l2.h == doubled(l.h, m)
        }),
    decreases 65536 - l.w, 0int,
{
    if out_of_bounds(l, sw, sh) {
        let g = grown(l);
        let l2 = repack_spec(g, repack_order(l.sprites)).unwrap();
        let m1 = lemma_repack_spec_shape(g, repack_order(l.sprites));
        let m2 = lemma_cache_spec_shape(l2, k, sw, sh);
        assert(doubled(l.w, 0) == l.w && doubled(l.h, 0) == l.h);
        assert(g.w == doubled(l.w, 1) && g.h == doubled(l.h, 1));
        lemma_doubled_adds(l.w, 1, m1);
        lemma_doubled_adds(l.h, 1, m1);
        lemma_doubled_adds(l.w, 1 + m1, m2);
        lemma_doubled_adds(l.h, 1 + m1, m2);
        (1 + m1 + m2) as nat
    } else {
        let r = PixelRect { x: place_x(l, sw) as u16, y: next_cy(l, sw) as u16, w: sw as u16, h: sh as u16 };
        let s2 = insert_entry(l.sprites, k, r);
        lemma_find_key(l.sprites, k);
        lemma_find_key(s2, k);
        match find_key(l.sprites, k) {
            Some(i) => {
                assert(s2[i] == (k, r));
                assert forall|j: int| i < j < s2.len() implies s2[j].0 != k by {
                    assert(s2[j] == l.sprites[j]);
                }
            },
            None => {
                assert(s2[l.sprites.len() as int] == (k, r));
            },
        }
        0
    }
}

/// Repacking only ever doubles the atlas size: the number of doublings is returned.
proof fn lemma_repack_spec_shape(l: AtlasLayout, order: Seq<(SpriteKey, PixelRect)>) -> (m: nat)
    requires
        repack_spec(l, order) is Some,
    ensures
        repack_spec(l, order).unwrap().w == doubled(l.w, m),
        repack_spec(l, order).unwrap().h == doubled(l.h, m),
    decreases 65536 - l.w, order.len() + 1,
{
    if order.len() == 0 {
        0
    } else {
        let l2 = cache_spec(l, order[0].0, order[0].1.w as int, order[0].1.h as int).unwrap();
        let m1 = lemma_cache_spec_shape(l, order[0].0, order[0].1.w as int, order[0].1.h as int);
        let m2 = lemma_repack_spec_shape(l2, order.drop_first());
        lemma_doubled_adds(l.w, m1, m2);
        lemma_doubled_adds(l.h, m1, m2);
        m1 + m2
    }
}

/// Whether some entry of `s` has key `k`.
pub open spec fn has_key(s: Seq<(SpriteKey, PixelRect)>, k: SpriteKey) -> bool {
    exists|j: int| 0 <= j < s.len() && (#[trigger] s[j]).0 == k
}

proof fn lemma_find_key_has(s: Seq<(SpriteKey, PixelRect)>, k: SpriteKey)
    ensures
        find_key(s, k) is Some <==> has_key(s, k),
{
    lemma_find_key(s, k);
    if find_key(s, k) is Some {
        let i = find_key(s, k).unwrap();
        assert(s[i].0 == k);
    }
}

/// Caching under `k` adds no key but `k`.
proof fn lemma_cache_spec_keys(l: AtlasLayout, k: SpriteKey, sw: int, sh: int)
    requires
        cache_spec(l, k, sw, sh) is Some,
    ensures
        forall|k2: SpriteKey|
            #[trigger] has_key(cache_spec(l, k, sw, sh).unwrap().sprites, k2) ==> k2 == k || has_key(l.sprites, k2),
    decreases 65536 - l.w, 0int,
{
    let l3 = cache_spec(l, k, sw, sh).unwrap();
    if out_of_bounds(l, sw, sh) {
        let g = grown(l);
        let order = repack_order(l.sprites);
        let l2 = repack_spec(g, order).unwrap();
        lemma_repack_spec_keys(g, order);
        lemma_cache_spec_keys(l2, k, sw, sh);
        lemma_repack_order_contains(l.sprites);
        assert forall|k2: SpriteKey| #[trigger] has_key(l3.sprites, k2) implies k2 == k || has_key(l.sprites, k2) by {
            if k2 != k {
                assert(has_key(l2.sprites, k2));
                if has_key(g.sprites, k2) {
                    let j = choose|j: int| 0 <= j < g.sprites.len() && (#[trigger] g.sprites[j]).0 == k2;
                }
                assert(has_key(order, k2));
                let j = choose|j: int| 0 <= j < order.len() && (#[trigger] order[j]).0 == k2;
                assert(order.contains(order[j]));
                assert(l.sprites.contains(order[j]));
                let u = choose|u: int| 0 <= u < l.sprites.len() && l.sprites[u] == order[j];
                assert(l.sprites[u].0 == k2);
            }
        }
    } else {
        let r = PixelRect { x: place_x(l, sw) as u16, y: next_cy(l, sw) as u16, w: sw as u16, h: sh as u16 };
        let s2 = insert_entry(l.sprites, k, r);
        assert(l3.sprites == s2);
        assert forall|k2: SpriteKey| #[trigger] has_key(l3.sprites, k2) implies k2 == k || has_key(l.sprites, k2) by {
            let j = choose|j: int| 0 <= j < s2.len() && (#[trigger] s2[j]).0 == k2;
            if k2 != k {
                match find_key(l.sprites, k) {
                    Some(i) => {
                        lemma_find_key(l.sprites, k);
                        assert(s2 == l.sprites.update(i, (k, r)));
                        assert(j != i);
                        assert(s2[j] == l.sprites[j]);
                    },
                    None => {
                        assert(j < l.sprites.len());
                        assert(s2[j] == l.sprites[j]);
                    },
                }
            }
        }
    }
}

/// Repacking `order` adds no key but those of `order`.
proof fn lemma_repack_spec_keys(l: AtlasLayout, order: Seq<(SpriteKey, PixelRect)>)
    requires
        repack_spec(l, order) is Some,
    ensures
        forall|k2: SpriteKey|
            #[trigger] has_key(repack_spec(l, order).unwrap().sprites, k2) ==> has_key(l.sprites, k2) || has_key(
                order,
                k2,
            ),
    decreases 65536 - l.w, order.len() + 1,
{
    if order.len() > 0 {
        let l2 = cache_spec(l, order[0].0, order[0].1.w as int, order[0].1.h as int).unwrap();
        let rest = order.drop_first();
        lemma_cache_spec_keys(l, order[0].0, order[0].1.w as int, order[0].1.h as int);
        lemma_repack_spec_keys(l2, rest);
        let res = repack_spec(l, order).unwrap();
        assert forall|k2: SpriteKey| #[trigger] has_key(res.sprites, k2) implies has_key(l.sprites, k2) || has_key(order, k2) by {
            if has_key(rest, k2) {
                let j = choose|j: int| 0 <= j < rest.len() && (#[trigger] rest[j]).0 == k2;
                assert(order[j + 1] == rest[j]);
            } else if has_key(l2.sprites, k2) {
                if k2 == order[0].0 {
                    assert(order[0].0 == k2);
                }
            }
        }
    }
}

/// Caching a key that is not there leaves no rect behind.
proof fn lemma_stale_fresh(l: AtlasLayout, c: Map<SpriteKey, Seq<u8>>, k: SpriteKey, sw: int, sh: int)
    requires
        cache_spec(l, k, sw, sh) is Some,
        !has_key(l.sprites, k),
    ensures
        stale_spec(l, Seq::empty(), c, k, sw, sh) == Seq::<(PixelRect, Seq<u8>)>::empty(),
    decreases 65536 - l.w,
{
    lemma_find_key_has(l.sprites, k);
    if out_of_bounds(l, sw, sh) {
        let g = grown(l);
        let order = repack_order(l.sprites);
        let l2 = repack_spec(g, order).unwrap();
        lemma_repack_spec_keys(g, order);
        lemma_repack_order_contains(l.sprites);
        if has_key(l2.sprites, k) {
            if has_key(g.sprites, k) {
                let j = choose|j: int| 0 <= j < g.sprites.len() && (#[trigger] g.sprites[j]).0 == k;
            }
            let j = choose|j: int| 0 <= j < order.len() && (#[trigger] order[j]).0 == k;
            assert(order.contains(order[j]));
            assert(l.sprites.contains(order[j]));
            let u = choose|u: int| 0 <= u < l.sprites.len() && l.sprites[u] == order[j];
            assert(l.sprites[u].0 == k);
        }
        lemma_stale_fresh(l2, c, k, sw, sh);
    }
}

/// Caching a sprite gives its key a rect of the sprite's own size, and the atlas
/// keeps its size or doubles it in both directions, some number of times.
pub proof fn law_cached_rect_fits_sprite_and_atlas_doubles(l: AtlasLayout, k: SpriteKey, sw: int, sh: int)
    requires
        cache_spec(l, k, sw, sh) is Some,
    ensures
        ({
            let l2 = cache_spec(l, k, sw, sh).unwrap();
            &&& find_key(l2.sprites, k) matches Some(i) && l2.sprites[i].1.w == sw && l2.sprites[i].1.h == sh
            &&& exists|m: nat| l2.w == doubled(l.w, m) && l2.h == doubled(l.h, m)
        }),
{
    let m = lemma_cache_spec_shape(l, k, sw, sh);
    let l2 = cache_spec(l, k, sw, sh).unwrap();
    assert(l2.w == doubled(l.w, m) && l2.h == doubled(l.h, m));
}

/// The atlas image is fixed by the layout, the cached pixels and the rects that keys
/// cached again left behind. `cache_sprite` fixes all three from the calls made
/// (through `cache_spec`, the cache map and `stale_spec`), so two atlases fed the same
/// calls hold the same image bytes.
pub proof fn law_atlas_image_is_determined(a1: Atlas, a2: Atlas)
    requires
        a1.wf(),
        a2.wf(),
        a1.layout() == a2.layout(),
        a1.cached() == a2.cached(),
        a1.stale_rects() == a2.stale_rects(),
    ensures
        a1.atlas_image().bytes@ == a2.atlas_image().bytes@,
{
    let l = a1.layout();
    let s = l.sprites;
    let b1 = a1.atlas_image().bytes@;
    let b2 = a2.atlas_image().bytes@;
    assert forall|x: int, y: int| 0 <= x < l.w && 0 <= y < l.h implies #[trigger] pix(b1, pixel_index(l.w, x, y))
        == pix(b2, pixel_index(l.w, x, y)) by {
        if covered(s, x, y) {
            let t = choose|t: int| 0 <= t < s.len() && in_rect(#[trigger] s[t].1, x, y);
            let r = s[t].1;
            let c = a1.cached()[s[t].0];
            assert(region_holds(b1, l.w, r, c));
            assert(region_holds(b2, l.w, r, c));
            assert(pix(b1, pixel_index(l.w, r.x + (x - r.x), r.y + (y - r.y))) == pix(c, pixel_index(r.w as int, x - r.x, y - r.y)));
            assert(pix(b2, pixel_index(l.w, r.x + (x - r.x), r.y + (y - r.y))) == pix(c, pixel_index(r.w as int, x - r.x, y - r.y)));
        } else if covered_by_stale(a1.stale_rects(), x, y) {
            let st = a1.stale_rects();
            let t = choose|t: int| 0 <= t < st.len() && in_rect(#[trigger] st[t].0, x, y);
            let r = st[t].0;
            let c = st[t].1;
            assert(a1.stale_ok() && a2.stale_ok());
            assert(region_holds(b1, l.w, r, c));
            assert(region_holds(b2, l.w, r, c));
            assert(pix(b1, pixel_index(l.w, r.x + (x - r.x), r.y + (y - r.y))) == pix(c, pixel_index(r.w as int, x - r.x, y - r.y)));
            assert(pix(b2, pixel_index(l.w, r.x + (x - r.x), r.y + (y - r.y))) == pix(c, pixel_index(r.w as int, x - r.x, y - r.y)));
        } else {
            assert(a1.stale_ok() && a2.stale_ok());
        }
    }
    lemma_pixels_determine_bytes(b1, b2, l.w, l.h);
}

} // verus!

//! Per-pixel image manipulations on images held in CPU memory.
use vstd::prelude::*;
use image::ImageFormat;

pub mod slotmap;

verus! {

/// The 4 bytes of pixel number `i` of an RGBA8 byte buffer.
pub open spec fn pix(bytes: Seq<u8>, i: int) -> Seq<u8> {
    bytes.subrange(4 * i, 4 * i + 4)
}

/// The number of pixel `(x, y)` in an image `w` pixels wide.
pub open spec fn pixel_index(w: int, x: int, y: int) -> int {
    y * w + x
}

/// A rectangle of whole pixels.
#[derive(Clone, Copy, Debug, PartialEq, Eq, Structural)]
pub struct PixelRect {
    pub x: u16,
    pub y: u16,
    pub w: u16,
    pub h: u16,
}

/// Image, data stored in CPU memory
pub struct Image {
    pub bytes: Vec<u8>,
    pub width: u16,
    pub height: u16,
}

impl Clone for Image {
    fn clone(&self) -> (r: Self)
        ensures
            r.bytes@ == self.bytes@,
            r.width == self.width,
            r.height == self.height,
    {
        let bytes = self.bytes.clone();
        assert(bytes@ =~= self.bytes@);
        Image { bytes, width: self.width, height: self.height }
    }
}

/// Pixels of one row are numbered apart from each other and from other rows.
pub proof fn lemma_pixel_index_injective(w: int, x1: int, y1: int, x2: int, y2: int)
    requires
        0 <= x1 < w,
        0 <= x2 < w,
        0 <= y1,
        0 <= y2,
        pixel_index(w, x1, y1) == pixel_index(w, x2, y2),
    ensures
        x1 == x2,
        y1 == y2,
{
    if y1 < y2 {
        assert((y1 + 1) * w <= y2 * w) by (nonlinear_arith)
            requires
                y1 + 1 <= y2,
                w > 0,
        ;
        assert(y1 * w + w == (y1 + 1) * w) by (nonlinear_arith);
    } else if y2 < y1 {
        assert((y2 + 1) * w <= y1 * w) by (nonlinear_arith)
            requires
                y2 + 1 <= y1,
                w > 0,
        ;
        assert(y2 * w + w == (y2 + 1) * w) by (nonlinear_arith);
    }
}

/// A pixel inside a `w` by `h` image is numbered below `w * h`.
pub proof fn lemma_pixel_index_bound(w: int, h: int, x: int, y: int)
    requires
        0 <= x < w,
        0 <= y < h,
    ensures
        0 <= pixel_index(w, x, y) < w * h,
{
    assert(y * w + x < w * h) by (nonlinear_arith)
        requires
            0 <= x < w,
            0 <= y < h,
    ;
    assert(0 <= y * w) by (nonlinear_arith)
        requires
            0 <= y,
            0 <= w,
    ;
}

impl Image {
    /// The byte buffer holds 4 bytes for each of the `width * height` pixels.
    pub open spec fn wf(&self) -> bool {
        self.bytes@.len() == self.width as int * self.height as int * 4
    }

    /// The color of pixel `(x, y)`.
    pub open spec fn pixel(&self, x: int, y: int) -> Seq<u8> {
        pix(self.bytes@, pixel_index(self.width as int, x, y))
    }

    /// Creates an empty Image.
    pub fn empty() -> (i: Image)
        ensures
            i.wf(),
            i.width == 0 && i.height == 0,
    {
        Image { width: 0, height: 0, bytes: Vec::new() }
    }

    /// Creates an Image filled with the provided RGBA color.
    pub fn gen_image_color(width: u16, height: u16, color: [u8; 4]) -> (i: Image)
        requires
            width as int * height as int * 4 <= usize::MAX,
        ensures
            i.wf(),
            i.width == width,
            i.height == height,
            forall|p: int| 0 <= p < width as int * height as int ==> #[trigger] pix(i.bytes@, p) == color@,
    {
        let n: usize = width as usize * height as usize;
        let mut bytes: Vec<u8> = Vec::new();
        let mut k: usize = 0;
        while k < n
            invariant
                n == width as int * height as int,
                n * 4 <= usize::MAX,
                0 <= k <= n,
                bytes@.len() == 4 * k,
                forall|p: int| 0 <= p < k ==> #[trigger] pix(bytes@, p) == color@,
            decreases n - k,
        {
            let ghost before = bytes@;
            bytes.push(color[0]);
            bytes.push(color[1]);
            bytes.push(color[2]);
            bytes.push(color[3]);
            proof {
                assert forall|p: int| 0 <= p < k + 1 implies #[trigger] pix(bytes@, p) == color@ by {
                    if p < k {
                        assert(pix(bytes@, p) =~= pix(before, p));
                    } else {
                        assert(pix(bytes@, p) =~= color@);
                    }
                }
            }
            k = k + 1;
        }
        Image { width, height, bytes }
    }

    /// Returns the width of this image.
    pub fn width(&self) -> (w: usize)
        ensures
            w == self.width,
    {
        self.width as usize
    }

    /// Returns the height of this image.
    pub fn height(&self) -> (h: usize)
        ensures
            h == self.height,
    {
        self.height as usize
    }

    /// Modifies pixel number `y * width + x` of this image.
    pub fn set_pixel(&mut self, x: u32, y: u32, color: [u8; 4])
        requires
            old(self).wf(),
            pixel_index(old(self).width as int, x as int, y as int) < old(self).width as int * old(self).height as int,
        ensures
            final(self).wf(),
            final(self).width == old(self).width,
            final(self).height == old(self).height,
            final(self).bytes@.len() == old(self).bytes@.len(),
            pix(final(self).bytes@, pixel_index(old(self).width as int, x as int, y as int)) == color@,
            forall|q: int|
                0 <= q < old(self).width as int * old(self).height as int && q != pixel_index(
                    old(self).width as int,
                    x as int,
                    y as int,
                ) ==> #[trigger] pix(final(self).bytes@, q) == pix(old(self).bytes@, q),
    {
        let width = self.width;
        proof {
            assert(0 <= y as int * width as int) by (nonlinear_arith)
                requires
                    0 <= y,
                    0 <= width,
            ;
            assert(width as int * self.height as int <= 65535 * 65535) by (nonlinear_arith)
                requires
                    width <= 65535,
                    self.height <= 65535,
                    0 <= width,
                    0 <= self.height,
            ;
        }
        let i: usize = (y * width as u32 + x) as usize;
        let ghost before = self.bytes@;
        let len = self.bytes.len();
        assert(4 * i + 4 <= len);
        self.bytes.set(4 * i, color[0]);
        self.bytes.set(4 * i + 1, color[1]);
        self.bytes.set(4 * i + 2, color[2]);
        self.bytes.set(4 * i + 3, color[3]);
        proof {
            assert(pix(self.bytes@, i as int) =~= color@);
            assert forall|q: int|
                0 <= q < width as int * self.height as int && q != i implies #[trigger] pix(self.bytes@, q) == pix(before, q) by {
                assert(pix(self.bytes@, q) =~= pix(before, q));
            }
        }
    }

    /// Returns pixel number `y * width + x` of this image.
    pub fn get_pixel(&self, x: u32, y: u32) -> (c: [u8; 4])
        requires
            self.wf(),
            pixel_index(self.width as int, x as int, y as int) < self.width as int * self.height as int,
        ensures
            c@ == pix(self.bytes@, pixel_index(self.width as int, x as int, y as int)),
    {
        proof {
            assert(0 <= y as int * self.width as int) by (nonlinear_arith)
                requires
                    0 <= y,
                    0 <= self.width,
            ;
            assert(self.width as int * self.height as int <= 65535 * 65535) by (nonlinear_arith)
                requires
                    self.width <= 65535,
                    self.height <= 65535,
                    0 <= self.width,
                    0 <= self.height,
            ;
        }
        let i: usize = (y * self.width as u32 + x) as usize;
        let len = self.bytes.len();
        assert(4 * i + 4 <= len);
        let c = [self.bytes[4 * i], self.bytes[4 * i + 1], self.bytes[4 * i + 2], self.bytes[4 * i + 3]];
        assert(c@ =~= pix(self.bytes@, i as int));
        c
    }
}

impl Image {
    /// Whether every pixel of `rect` lies in the byte buffer of this image.
    pub open spec fn holds_rect(&self, rect: PixelRect) -> bool {
        rect.w == 0 || rect.h == 0 || pixel_index(
            self.width as int,
            rect.x + rect.w - 1,
            rect.y + rect.h - 1,
        ) < self.width as int * self.height as int
    }

    /// Returns an Image from a rect inside this image.
    pub fn sub_image(&self, rect: PixelRect) -> (r: Image)
        requires
            self.wf(),
            self.holds_rect(rect),
            rect.w as int * rect.h as int * 4 <= usize::MAX,
        ensures
            r.wf(),
            r.width == rect.w,
            r.height == rect.h,
            forall|i: int, j: int|
                0 <= i < rect.w && 0 <= j < rect.h ==> #[trigger] r.pixel(i, j) == self.pixel(rect.x + i, rect.y + j),
    {
        let width = rect.w as usize;
        let height = rect.h as usize;
        let big_w = self.width as usize;
        let ghost total = self.width as int * self.height as int;
        let mut bytes: Vec<u8> = Vec::new();
        let mut j: usize = 0;
        while j < height
            invariant
                self.wf(),
                self.holds_rect(rect),
                width == rect.w,
                height == rect.h,
                big_w == self.width,
                total == self.width as int * self.height as int,
                width as int * height as int * 4 <= usize::MAX,
                0 <= j <= height,
                bytes@.len() == 4 * (j * width),
                forall|jj: int, ii: int|
                    0 <= jj < j && 0 <= ii < width ==> #[trigger] pix(bytes@, jj * width + ii) == self.pixel(
                        rect.x + ii,
                        rect.y + jj,
                    ),
            decreases height - j,
        {
            let mut i: usize = 0;
            proof {
                assert(j * width + width <= height * width) by (nonlinear_arith)
                    requires
                        j < height,
                ;
                assert(j * width + width == (j + 1) * width) by (nonlinear_arith);
            }
            while i < width
                invariant
                    self.wf(),
                    self.holds_rect(rect),
                    width == rect.w,
                    height == rect.h,
                    big_w == self.width,
                    total == self.width as int * self.height as int,
                    width as int * height as int * 4 <= usize::MAX,
                    0 <= j < height,
                    0 <= i <= width,
                    j * width + width <= height * width,
                    bytes@.len() == 4 * (j * width + i),
                    forall|jj: int, ii: int|
                        0 <= jj < j && 0 <= ii < width ==> #[trigger] pix(bytes@, jj * width + ii) == self.pixel(
                            rect.x + ii,
                            rect.y + jj,
                        ),
                    forall|ii: int|
                        0 <= ii < i ==> #[trigger] pix(bytes@, j * width + ii) == self.pixel(rect.x + ii, rect.y + j),
                decreases width - i,
            {
                let ghost before = bytes@;
                let sx = rect.x as usize + i;
                let sy = rect.y as usize + j;
                proof {
                    // the source pixel is no further than the last pixel of the rect
                    assert(sy * big_w + sx <= (rect.y + rect.h - 1) * big_w + (rect.x + rect.w - 1)) by (nonlinear_arith)
                        requires
                            sy <= rect.y + rect.h - 1,
                            sx <= rect.x + rect.w - 1,
                            big_w >= 0,
                    ;
                    assert(0 <= sy * big_w) by (nonlinear_arith)
                        requires
                            big_w >= 0,
                    ;
                    assert(total <= 65535 * 65535) by (nonlinear_arith)
                        requires
                            total == self.width as int * self.height as int,
                            self.width <= 65535,
                            self.height <= 65535,
                            0 <= self.width,
                            0 <= self.height,
                    ;
                }
                let len = self.bytes.len();
                let k = sy * big_w + sx;
                assert(4 * k + 4 <= len);
                bytes.push(self.bytes[4 * k]);
                bytes.push(self.bytes[4 * k + 1]);
                bytes.push(self.bytes[4 * k + 2]);
                bytes.push(self.bytes[4 * k + 3]);
                proof {
                    assert(pix(bytes@, j * width + i) =~= self.pixel(rect.x + i, rect.y + j));
                    assert forall|jj: int, ii: int|
                        0 <= jj < j && 0 <= ii < width implies #[trigger] pix(bytes@, jj * width + ii) == self.pixel(
                            rect.x + ii,
                            rect.y + jj,
                        ) by {
                        assert(jj * width + ii < j * width) by (nonlinear_arith)
                            requires
                                jj < j,
                                ii < width,
                        ;
                        assert(pix(bytes@, jj * width + ii) =~= pix(before, jj * width + ii));
                    }
                    assert forall|ii: int| 0 <= ii < i + 1 implies #[trigger] pix(bytes@, j * width + ii) == self.pixel(
                        rect.x + ii,
                        rect.y + j,
                    ) by {
                        if ii < i {
                            assert(pix(bytes@, j * width + ii) =~= pix(before, j * width + ii));
                        }
                    }
                }
                i = i + 1;
            }
            proof {
                assert forall|jj: int, ii: int|
                    0 <= jj < j + 1 && 0 <= ii < width implies #[trigger] pix(bytes@, jj * width + ii) == self.pixel(
                        rect.x + ii,
                        rect.y + jj,
                    ) by {
                    if jj == j {
                        assert(pix(bytes@, j * width + ii) == self.pixel(rect.x + ii, rect.y + j));
                    }
                }
            }
            j = j + 1;
        }
        let r = Image { width: rect.w, height: rect.h, bytes };
        proof {
            assert(r.bytes@.len() == rect.w as int * rect.h as int * 4) by (nonlinear_arith)
                requires
                    r.bytes@.len() == 4 * (height * width),
                    width == rect.w,
                    height == rect.h,
            ;
            assert forall|i: int, j: int|
                0 <= i < rect.w && 0 <= j < rect.h implies #[trigger] r.pixel(i, j) == self.pixel(rect.x + i, rect.y + j) by {
                assert(r.pixel(i, j) == pix(bytes@, j * width + i));
            }
        }
        r
    }
}


/// The encoded file formats that images are read from (the decoders built in).
#[derive(Clone, Copy, Debug, PartialEq, Eq, Structural)]
pub enum ImageFileFormat {
    Png,
    Jpeg,
}

/// Width and height of the image that the `image` crate decodes from `bytes`, in
/// `format` or, for `None`, in the format it guesses; `None` where it reports an error.
pub uninterp spec fn decoded_size(bytes: Seq<u8>, format: Option<ImageFileFormat>) -> Option<(u32, u32)>;

/// Calls `image::load_from_memory_with_format` (or `image::load_from_memory` for no
/// format), then `to_rgba8`, `width`, `height` and `into_raw`. Claims that decoding
/// succeeds exactly where `decoded_size` says so, with that size, and that the raw
/// buffer of the RGBA8 image holds 4 bytes for each pixel. The pixel values are left
/// unstated: the JPEG decoder behind the crate picks SIMD or scalar code at run time,
/// and nothing in its source says that the two give the same bytes.
#[verifier::external_body]
fn load_rgba8(bytes: &[u8], format: Option<ImageFileFormat>) -> (r: Option<(u32, u32, Vec<u8>)>)
    ensures
        match r {
            Some(v) => decoded_size(bytes@, format) == Some((v.0, v.1)) && v.2@.len() == v.0 * v.1 * 4,
            None => decoded_size(bytes@, format) is None,
        },
{
    let decoded = match format {
        Some(ImageFileFormat::Png) => image::load_from_memory_with_format(bytes, ImageFormat::Png),
        Some(ImageFileFormat::Jpeg) => image::load_from_memory_with_format(bytes, ImageFormat::Jpeg),
        None => image::load_from_memory(bytes),
    };
    let img = decoded.ok()?.to_rgba8();
    Some((img.width(), img.height(), img.into_raw()))
}

/// The bytes of row `y` of an image whose rows are `row_len` bytes long.
pub open spec fn row(bytes: Seq<u8>, row_len: int, y: int) -> Seq<u8> {
    bytes.subrange(y * row_len, y * row_len + row_len)
}

impl Image {
    /// The image made of what a decoder returned; the size is cut to 16 bits as it is.
    pub fn from_decoded(width: u32, height: u32, bytes: Vec<u8>) -> (i: Image)
        ensures
            i.width == width as u16,
            i.height == height as u16,
            i.bytes@ == bytes@,
    {
        Image { width: width as u16, height: height as u16, bytes }
    }

    /// Creates an Image from a slice of bytes that contains an encoded image, in
    /// `format` or, for `None`, in the format the decoder guesses; `None` where the
    /// bytes do not decode.
    pub fn try_from_file_with_format(bytes: &[u8], format: Option<ImageFileFormat>) -> (r: Option<Image>)
        ensures
            r is Some <==> decoded_size(bytes@, format) is Some,
            r matches Some(i) ==> decoded_size(bytes@, format) matches Some(v) && i.width == v.0 as u16
                && i.height == v.1 as u16 && i.bytes@.len() == v.0 * v.1 * 4,
    {
        match load_rgba8(bytes, format) {
            Some((w, h, raw)) => Some(Image::from_decoded(w, h, raw)),
            None => None,
        }
    }

    /// Creates an Image from a slice of bytes that contains an encoded image; bytes that
    /// do not decode are refused by `requires`.
    pub fn from_file_with_format(bytes: &[u8], format: Option<ImageFileFormat>) -> (i: Image)
        requires
            decoded_size(bytes@, format) is Some,
        ensures
            decoded_size(bytes@, format) matches Some(v) && i.width == v.0 as u16 && i.height == v.1 as u16
                && i.bytes@.len() == v.0 * v.1 * 4,
    {
        Image::try_from_file_with_format(bytes, format).unwrap()
    }

    /// The bytes that a PNG export of this image writes: its rows in reverse order.
    pub fn export_png(&self) -> (r: Vec<u8>)
        requires
            self.bytes@.len() >= self.width as int * self.height as int * 4,
        ensures
            r@.len() == self.width as int * self.height as int * 4,
            forall|y: int|
                0 <= y < self.height ==> #[trigger] row(r@, self.width * 4, y) == row(
                    self.bytes@,
                    self.width * 4,
                    self.height - 1 - y,
                ),
    {
        let w4: usize = self.width as usize * 4;
        let h: usize = self.height as usize;
        let ghost src = self.bytes@;
        proof {
            assert(w4 * h <= 65535 * 4 * 65535) by (nonlinear_arith)
                requires
                    w4 <= 65535 * 4,
                    h <= 65535,
            ;
            assert(h * w4 == self.width as int * self.height as int * 4) by (nonlinear_arith)
                requires
                    w4 == self.width * 4,
                    h == self.height,
            ;
            assert(h * w4 == w4 * h) by (nonlinear_arith);
        }
        let mut out: Vec<u8> = Vec::new();
        let mut y: usize = 0;
        while y < h
            invariant
                w4 == self.width * 4,
                h == self.height,
                src == self.bytes@,
                h * w4 <= self.bytes.len(),
                h * w4 == self.width as int * self.height as int * 4,
                0 <= y <= h,
                out@.len() == y * w4,
                forall|yy: int| 0 <= yy < y ==> #[trigger] row(out@, w4 as int, yy) == row(src, w4 as int, h - 1 - yy),
            decreases h - y,
        {
            proof {
                assert((h - y - 1) * w4 + w4 <= h * w4) by (nonlinear_arith)
                    requires
                        y < h,
                ;
                assert((h - y - 1) * w4 + w4 == (h - y) * w4) by (nonlinear_arith);
                assert(y * w4 + w4 == (y + 1) * w4) by (nonlinear_arith);
                assert((y + 1) * w4 <= h * w4) by (nonlinear_arith)
                    requires
                        y < h,
                ;
                assert(0 <= (h - y - 1) * w4) by (nonlinear_arith)
                    requires
                        y < h,
                ;
            }
            let from: usize = (h - y - 1) * w4;
            let ghost before = out@;
            let mut x: usize = 0;
            while x < w4
                invariant
                    src == self.bytes@,
                    from + w4 <= self.bytes.len(),
                    from == (h - y - 1) * w4,
                    0 <= x <= w4,
                    before.len() == y * w4,
                    out@.len() == y * w4 + x,
                    out@.subrange(0, before.len() as int) == before,
                    out@.subrange(before.len() as int, out@.len() as int) == src.subrange(from as int, from + x),
                decreases w4 - x,
            {
                out.push(self.bytes[from + x]);
                x = x + 1;
                assert(out@.subrange(0, before.len() as int) =~= before);
                assert(out@.subrange(before.len() as int, out@.len() as int) =~= src.subrange(from as int, from + x));
            }
            proof {
                assert forall|yy: int| 0 <= yy < y + 1 implies #[trigger] row(out@, w4 as int, yy) == row(
                    src,
                    w4 as int,
                    h - 1 - yy,
                ) by {
                    if yy < y {
                        assert(yy * w4 + w4 <= y * w4) by (nonlinear_arith)
                            requires
                                yy < y,
                                yy >= 0,
                        ;
                        assert(0 <= yy * w4) by (nonlinear_arith)
                            requires
                                yy >= 0,
                        ;
                        assert(row(out@, w4 as int, yy) =~= row(before, w4 as int, yy));
                    } else {
                        assert(row(out@, w4 as int, yy) =~= out@.subrange(before.len() as int, out@.len() as int));
                    }
                }
            }
            y = y + 1;
        }
        out
    }
}

} // verus!

use macroquad::hexadecimal::{hex_pair_to_u8, hex_to_u8};
use macroquad::image::{decode, image_format, png_buffer, try_decode, ImageFormat, RGBA8Buffer};
use macroquad::texture::{Image, ImageFileFormat, PixelRect};

fn png_bytes(width: u32, height: u32, pixels: Vec<u8>) -> Vec<u8> {
    let img = image::RgbaImage::from_raw(width, height, pixels).unwrap();
    let mut out = std::io::Cursor::new(Vec::new());
    img.write_to(&mut out, image::ImageFormat::Png).unwrap();
    out.into_inner()
}

fn jpeg_bytes(width: u32, height: u32) -> Vec<u8> {
    let img = image::RgbImage::from_pixel(width, height, image::Rgb([200, 100, 50]));
    let mut out = std::io::Cursor::new(Vec::new());
    img.write_to(&mut out, image::ImageFormat::Jpeg).unwrap();
    out.into_inner()
}

#[test]
fn hex_digits_and_pairs() {
    assert_eq!(hex_to_u8("7"), 7);
    assert_eq!(hex_to_u8("A"), 10);
    assert_eq!(hex_to_u8("F"), 15);
    assert_eq!(hex_to_u8("200"), 200);
    assert_eq!(hex_pair_to_u8("FF"), 255);
    assert_eq!(hex_pair_to_u8("1A"), 26);
    assert_eq!(hex_pair_to_u8("80"), 128);
}

#[test]
fn formats_are_told_by_their_magic_bytes() {
    assert_eq!(image_format(&[0xFF, 0xD8, 0]), Some(ImageFormat::Jpeg));
    assert_eq!(image_format(&[0x89, 0x50, 0x4E, 0x47, 0x0D, 0x0A, 0x1A, 0x0A]), Some(ImageFormat::Png));
    assert_eq!(image_format(&[0x89, 0x50, 0x4E, 0x47, 0x0D, 0x0A, 0x1A]), None);
    assert_eq!(image_format(&[0xFF]), None);
    assert_eq!(image_format(b"GIF89a"), None);
}

#[test]
fn png_buffer_wants_four_bytes_per_pixel() {
    let b = png_buffer(2, 1, vec![1, 2, 3, 4, 5, 6, 7, 8]).unwrap();
    assert_eq!((b.width, b.height, b.data.len()), (2, 1, 8));
    assert!(png_buffer(2, 1, vec![1, 2, 3, 4, 5, 6]).is_none());
    assert!(png_buffer(usize::MAX, 2, vec![]).is_none());
}

#[test]
fn png_file_decodes_to_its_pixels() {
    let pixels = vec![255, 0, 0, 255, 0, 255, 0, 128];
    let bytes = png_bytes(2, 1, pixels.clone());
    let b = match decode(&bytes) {
        Ok(b) => b,
        Err(_) => panic!("png decoding failed"),
    };
    assert_eq!((b.width, b.height), (2, 1));
    assert_eq!(b.data, pixels);
}

#[test]
fn jpeg_file_decodes_to_rgba() {
    let bytes = jpeg_bytes(3, 2);
    let b = match decode(&bytes) {
        Ok(b) => b,
        Err(_) => panic!("jpeg decoding failed"),
    };
    assert_eq!((b.width, b.height), (3, 2));
    assert_eq!(b.data.len(), 3 * 2 * 4);
    assert_eq!(b.data[3], 255);
}

#[test]
fn broken_jpeg_gives_an_error() {
    assert!(matches!(try_decode(&[0xFF, 0xD8, 0xFF]), Some(Err(_))));
}

#[test]
fn unknown_bytes_are_not_decodable() {
    assert!(try_decode(b"hello").is_none());
    let mut broken_png = vec![0x89, 0x50, 0x4E, 0x47, 0x0D, 0x0A, 0x1A, 0x0A];
    broken_png.extend_from_slice(b"junk");
    assert!(try_decode(&broken_png).is_none());
}

#[test]
fn default_buffer_is_empty() {
    let b = RGBA8Buffer::default();
    assert_eq!((b.width, b.height, b.data.len()), (0, 0, 0));
}

#[test]
fn image_from_png_file() {
    let pixels = vec![1, 2, 3, 4, 5, 6, 7, 8, 9, 10, 11, 12];
    let bytes = png_bytes(1, 3, pixels.clone());
    let img = Image::from_file_with_format(&bytes, Some(ImageFileFormat::Png));
    assert_eq!((img.width, img.height), (1, 3));
    assert_eq!(img.bytes, pixels);
    let guessed = Image::try_from_file_with_format(&bytes, None).unwrap();
    assert_eq!(guessed.bytes, pixels);
    assert!(Image::try_from_file_with_format(&bytes, Some(ImageFileFormat::Jpeg)).is_none());
}

#[test]
fn export_png_writes_rows_bottom_first() {
    let img = Image { bytes: (0u8..24).collect(), width: 2, height: 3 };
    let out = img.export_png();
    let expected: Vec<u8> = (16u8..24).chain(8u8..16).chain(0u8..8).collect();
    assert_eq!(out, expected);
}

#[test]
fn pixels_set_get_and_sub_image() {
    let mut img = Image::gen_image_color(3, 2, [1, 2, 3, 4]);
    assert_eq!(img.bytes.len(), 24);
    assert_eq!(img.get_pixel(2, 1), [1, 2, 3, 4]);
    img.set_pixel(1, 1, [9, 9, 9, 9]);
    assert_eq!(img.get_pixel(1, 1), [9, 9, 9, 9]);
    assert_eq!(img.get_pixel(0, 1), [1, 2, 3, 4]);
    let sub = img.sub_image(PixelRect { x: 1, y: 1, w: 2, h: 1 });
    assert_eq!((sub.width, sub.height), (2, 1));
    assert_eq!(sub.bytes, vec![9, 9, 9, 9, 1, 2, 3, 4]);
    assert_eq!((img.width(), img.height()), (3, 2));
    let empty = Image::empty();
    assert_eq!((empty.width, empty.height, empty.bytes.len()), (0, 0, 0));
}

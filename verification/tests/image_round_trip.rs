use nxfs::archive::{Archive, Bitmap, NodeValue};
use nxfs::attr::FileType;
use nxfs::clock::Timestamp;
use nxfs::content::encode_bitmap;
use nxfs::filesystem::NxFilesystem;
use nxfs::registry::ROOT_INODE;

/// Opens an encoded bitmap with the `image` crate: width, height, and the
/// pixels as red, green, blue, alpha.
fn open(file: &[u8]) -> (u32, u32, Vec<u8>) {
    let decoded = image::load_from_memory_with_format(file, image::ImageFormat::Bmp)
        .expect("the file opens as a bmp")
        .to_rgba8();
    (decoded.width(), decoded.height(), decoded.into_raw())
}

#[test]
fn image_crate_opens_the_red_square() {
    let b = Bitmap::new(2, 2, [255u8, 0, 0, 255].repeat(4)).unwrap();
    let (w, h, rgba) = open(&encode_bitmap(&b));
    assert_eq!((w, h), (2, 2));
    assert_eq!(rgba, [255u8, 0, 0, 255].repeat(4));
}

#[test]
fn image_crate_gets_every_pixel_back() {
    for (w, h) in [(1u16, 1u16), (3, 5), (5, 3), (16, 1), (1, 16), (7, 7), (64, 33)] {
        let mut pixels = Vec::new();
        let mut x: u32 = 12345 + w as u32 * 31 + h as u32;
        for _ in 0..(w as usize * h as usize * 4) {
            x = x.wrapping_mul(1664525).wrapping_add(1013904223);
            pixels.push((x >> 24) as u8);
        }
        let b = Bitmap::new(w, h, pixels.clone()).unwrap();
        let (dw, dh, rgba) = open(&encode_bitmap(&b));
        assert_eq!((dw, dh), (w as u32, h as u32));
        assert_eq!(rgba, pixels);
    }
}

#[test]
fn image_crate_keeps_rows_top_to_bottom() {
    // Top row opaque white, bottom row opaque black.
    let mut pixels = [255u8; 8].to_vec();
    pixels.extend_from_slice(&[0, 0, 0, 255, 0, 0, 0, 255]);
    let b = Bitmap::new(2, 2, pixels).unwrap();
    let (_, _, rgba) = open(&encode_bitmap(&b));
    assert_eq!(&rgba[0..8], &[255u8; 8]);
    assert_eq!(&rgba[8..16], &[0, 0, 0, 255, 0, 0, 0, 255]);
}

#[test]
fn image_crate_tells_the_channels_apart() {
    // One pixel of each pure colour, and one half-transparent mix.
    let pixels = vec![255u8, 0, 0, 255, 0, 255, 0, 255, 0, 0, 255, 255, 10, 20, 30, 128];
    let b = Bitmap::new(4, 1, pixels.clone()).unwrap();
    let (w, h, rgba) = open(&encode_bitmap(&b));
    assert_eq!((w, h), (4, 1));
    assert_eq!(rgba, pixels);
}

#[test]
fn icon_read_through_the_engine_opens_as_red() {
    let mut a = Archive::new("", NodeValue::Empty);
    let red = Bitmap::new(2, 2, [255u8, 0, 0, 255].repeat(4)).unwrap();
    a.add_child(0, "icon", NodeValue::Bitmap(red)).unwrap();
    let mut fs = NxFilesystem::new_at(&a, Timestamp { sec: 0, nsec: 0 });
    let found = fs.lookup(ROOT_INODE, "icon").unwrap();
    assert_eq!(found.kind, FileType::RegularFile);
    let bytes = fs.read(found.ino, 0, 1_000_000);
    assert_eq!(found.size, bytes.len() as u64);
    let (w, h, rgba) = open(&bytes);
    assert_eq!((w, h), (2, 2));
    assert_eq!(rgba, [255u8, 0, 0, 255].repeat(4));
}
